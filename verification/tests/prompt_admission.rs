use executive::prompt_admission::{prompt_admission_mode, PromptAdmissionMode};

#[test]
fn disabled_prompt_queue_preserves_direct_turn_admission() {
    assert_eq!(prompt_admission_mode(false), PromptAdmissionMode::Direct);
    assert_eq!(prompt_admission_mode(true), PromptAdmissionMode::Queued);
}
