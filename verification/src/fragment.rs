//! Accumulation of streamed text fragments.

use vstd::prelude::*;
use vstd::string::{StringExecFns, StringSliceAdditionalSpecFns};
use vstd::utf8::encode_utf8;

verus! {

/// UTF-8 encoding distributes over concatenation.
pub proof fn lemma_encode_concat(a: Seq<char>, b: Seq<char>)
    ensures
        encode_utf8(a + b) == encode_utf8(a) + encode_utf8(b),
    decreases a.len(),
{
    if a.len() == 0 {
        assert(a + b =~= b);
        assert(encode_utf8(a) =~= Seq::<u8>::empty());
        assert(encode_utf8(a) + encode_utf8(b) =~= encode_utf8(b));
    } else {
        assert((a + b)[0] == a[0]);
        assert((a + b).drop_first() =~= a.drop_first() + b);
        lemma_encode_concat(a.drop_first(), b);
        assert(encode_utf8(a + b) =~= encode_utf8(a) + encode_utf8(b));
    }
}

/// Accumulates the text deltas of a streaming response, in order; the
/// whole text can be read or drained.
#[derive(Debug)]
pub struct FragmentAccumulator {
    fragments: Vec<String>,
    total_bytes: usize,
}

impl View for FragmentAccumulator {
    type V = Seq<Seq<char>>;

    /// The fragments pushed so far, in order.
    closed spec fn view(&self) -> Seq<Seq<char>> {
        self.fragments@.map_values(|f: String| f@)
    }
}

impl FragmentAccumulator {
    /// The total UTF-8 size of the accumulated text is tracked exactly.
    pub closed spec fn wf(&self) -> bool {
        self.total_bytes == encode_utf8(self@.flatten()).len()
    }

    /// Bytes counted so far.
    pub closed spec fn byte_count(&self) -> usize {
        self.total_bytes
    }

    /// An empty accumulator.
    pub fn new() -> (acc: Self)
        ensures
            acc.wf(),
            acc@ == Seq::<Seq<char>>::empty(),
            acc.byte_count() == 0,
    {
        let acc = FragmentAccumulator { fragments: Vec::new(), total_bytes: 0 };
        proof {
            assert(acc@ =~= Seq::<Seq<char>>::empty());
            assert(encode_utf8(Seq::<char>::empty()) =~= Seq::<u8>::empty());
        }
        acc
    }

    /// Appends a streamed delta.
    pub fn push(&mut self, delta: &str)
        requires
            old(self).wf(),
            old(self).byte_count() + delta.spec_bytes().len() <= usize::MAX,
        ensures
            final(self).wf(),
            final(self)@ == old(self)@.push(delta@),
            final(self).byte_count() == old(self).byte_count() + delta.spec_bytes().len(),
    {
        let n = delta.as_bytes().len();
        self.total_bytes = self.total_bytes + n;
        self.fragments.push(delta.to_owned());
        proof {
            assert(self@ =~= old(self)@.push(delta@));
            old(self)@.lemma_flatten_push(delta@);
            lemma_encode_concat(old(self)@.flatten(), delta@);
        }
    }

    /// The concatenation of all fragments.
    pub fn content(&self) -> (text: String)
        ensures
            text@ == self@.flatten(),
    {
        let mut text = String::new();
        let mut i: usize = 0;
        while i < self.fragments.len()
            invariant
                0 <= i <= self.fragments@.len(),
                text@ == self@.take(i as int).flatten(),
            decreases self.fragments@.len() - i,
        {
            text.append(self.fragments[i].as_str());
            proof {
                assert(self@.take(i + 1) =~= self@.take(i as int).push(self@[i as int]));
                self@.take(i as int).lemma_flatten_push(self@[i as int]);
            }
            i = i + 1;
        }
        proof {
            assert(self@.take(self@.len() as int) =~= self@);
        }
        text
    }

    /// Drains all fragments and returns their concatenation; the
    /// accumulator is empty afterwards.
    pub fn take(&mut self) -> (text: String)
        requires
            old(self).wf(),
        ensures
            text@ == old(self)@.flatten(),
            final(self).wf(),
            final(self)@ == Seq::<Seq<char>>::empty(),
            final(self).byte_count() == 0,
    {
        let text = self.content();
        self.fragments.clear();
        self.total_bytes = 0;
        proof {
            assert(self@ =~= Seq::<Seq<char>>::empty());
            assert(encode_utf8(Seq::<char>::empty()) =~= Seq::<u8>::empty());
        }
        text
    }

    /// Number of fragments.
    pub fn fragment_count(&self) -> (n: usize)
        ensures
            n == self@.len(),
    {
        self.fragments.len()
    }

    /// Total UTF-8 bytes accumulated.
    pub fn total_bytes(&self) -> (n: usize)
        requires
            self.wf(),
        ensures
            n == self.byte_count(),
            n == encode_utf8(self@.flatten()).len(),
    {
        self.total_bytes
    }

    /// Whether no fragment was pushed.
    pub fn is_empty(&self) -> (empty: bool)
        ensures
            empty == (self@.len() == 0),
    {
        self.fragments.len() == 0
    }
}

impl Default for FragmentAccumulator {
    fn default() -> (acc: Self)
        ensures
            acc.wf(),
            acc@ == Seq::<Seq<char>>::empty(),
    {
        FragmentAccumulator::new()
    }
}

} // verus!
