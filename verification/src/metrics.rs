//! Session metrics: counts and latencies of inference, tool and hook
//! calls, and token usage overall and per provider.

use vstd::prelude::*;
use crate::keyed::TextMap;

verus! {

/// Token usage of a session or of one provider.
#[derive(Debug, Clone, Copy, Default, PartialEq, Eq, Structural)]
pub struct TokenUsageBreakdown {
    pub input_tokens: u64,
    pub output_tokens: u64,
    pub cache_read_tokens: u64,
    pub cache_write_tokens: u64,
}

impl TokenUsageBreakdown {
    pub open spec fn spec_total(&self) -> int {
        self.input_tokens + self.output_tokens + self.cache_read_tokens + self.cache_write_tokens
    }

    /// All tokens counted.
    pub fn total(&self) -> (total: u64)
        requires
            self.spec_total() <= u64::MAX,
        ensures
            total == self.spec_total(),
    {
        self.input_tokens + self.output_tokens + self.cache_read_tokens + self.cache_write_tokens
    }
}

/// No usage yet.
pub open spec fn zero_usage() -> TokenUsageBreakdown {
    TokenUsageBreakdown {
        input_tokens: 0,
        output_tokens: 0,
        cache_read_tokens: 0,
        cache_write_tokens: 0,
    }
}

/// Usage with an inference's input and output tokens added.
pub open spec fn add_inference(u: TokenUsageBreakdown, input: u64, output: u64) -> TokenUsageBreakdown {
    TokenUsageBreakdown {
        input_tokens: (u.input_tokens + input) as u64,
        output_tokens: (u.output_tokens + output) as u64,
        ..u
    }
}

/// Usage with cache reads and writes added.
pub open spec fn add_cache(u: TokenUsageBreakdown, read: u64, write: u64) -> TokenUsageBreakdown {
    TokenUsageBreakdown {
        cache_read_tokens: (u.cache_read_tokens + read) as u64,
        cache_write_tokens: (u.cache_write_tokens + write) as u64,
        ..u
    }
}

/// The session-wide counters of a metrics exporter.
#[derive(Debug, Clone, Copy, PartialEq, Eq, Structural)]
pub struct MetricsCounters {
    pub llm_call_count: u64,
    pub total_inference_latency_ms: u64,
    pub tool_call_count: u64,
    pub total_tool_latency_ms: u64,
    pub hook_execution_count: u64,
    pub total_hook_latency_ms: u64,
    pub token_usage: TokenUsageBreakdown,
}

/// Exporter that accumulates session metrics.
#[derive(Debug)]
pub struct MetricsExporter {
    counters: MetricsCounters,
    per_provider: TextMap<TokenUsageBreakdown>,
}

impl View for MetricsExporter {
    type V = MetricsCounters;

    closed spec fn view(&self) -> MetricsCounters {
        self.counters
    }
}

impl MetricsExporter {
    /// Usage recorded per provider name.
    pub closed spec fn providers(&self) -> Map<Seq<char>, TokenUsageBreakdown> {
        self.per_provider@
    }

    pub closed spec fn wf(&self) -> bool {
        self.per_provider.wf()
    }

    /// Usage of `provider` so far (none when it was never recorded).
    pub open spec fn provider_or_zero(&self, provider: Seq<char>) -> TokenUsageBreakdown {
        if self.providers().contains_key(provider) {
            self.providers()[provider]
        } else {
            zero_usage()
        }
    }

    /// A fresh exporter with every counter at zero.
    pub fn new() -> (exporter: Self)
        ensures
            exporter.wf(),
            exporter@ == (MetricsCounters {
                llm_call_count: 0,
                total_inference_latency_ms: 0,
                tool_call_count: 0,
                total_tool_latency_ms: 0,
                hook_execution_count: 0,
                total_hook_latency_ms: 0,
                token_usage: zero_usage(),
            }),
            exporter.providers() == Map::<Seq<char>, TokenUsageBreakdown>::empty(),
    {
        MetricsExporter {
            counters: MetricsCounters {
                llm_call_count: 0,
                total_inference_latency_ms: 0,
                tool_call_count: 0,
                total_tool_latency_ms: 0,
                hook_execution_count: 0,
                total_hook_latency_ms: 0,
                token_usage: TokenUsageBreakdown {
                    input_tokens: 0,
                    output_tokens: 0,
                    cache_read_tokens: 0,
                    cache_write_tokens: 0,
                },
            },
            per_provider: TextMap::new(),
        }
    }

    /// Records one LLM inference call.
    pub fn record_inference(&mut self, input_tokens: u64, output_tokens: u64, latency_ms: u64)
        requires
            old(self)@.llm_call_count < u64::MAX,
            old(self)@.total_inference_latency_ms + latency_ms <= u64::MAX,
            old(self)@.token_usage.input_tokens + input_tokens <= u64::MAX,
            old(self)@.token_usage.output_tokens + output_tokens <= u64::MAX,
        ensures
            final(self)@ == (MetricsCounters {
                llm_call_count: (old(self)@.llm_call_count + 1) as u64,
                total_inference_latency_ms: (old(self)@.total_inference_latency_ms
                    + latency_ms) as u64,
                token_usage: add_inference(old(self)@.token_usage, input_tokens, output_tokens),
                ..old(self)@
            }),
            final(self).providers() == old(self).providers(),
            final(self).wf() == old(self).wf(),
    {
        let c = self.counters;
        self.counters = MetricsCounters {
            llm_call_count: c.llm_call_count + 1,
            total_inference_latency_ms: c.total_inference_latency_ms + latency_ms,
            token_usage: TokenUsageBreakdown {
                input_tokens: c.token_usage.input_tokens + input_tokens,
                output_tokens: c.token_usage.output_tokens + output_tokens,
                ..c.token_usage
            },
            ..c
        };
    }

    /// Records one tool call.
    pub fn record_tool_call(&mut self, latency_ms: u64)
        requires
            old(self)@.tool_call_count < u64::MAX,
            old(self)@.total_tool_latency_ms + latency_ms <= u64::MAX,
        ensures
            final(self)@ == (MetricsCounters {
                tool_call_count: (old(self)@.tool_call_count + 1) as u64,
                total_tool_latency_ms: (old(self)@.total_tool_latency_ms + latency_ms) as u64,
                ..old(self)@
            }),
            final(self).providers() == old(self).providers(),
            final(self).wf() == old(self).wf(),
    {
        let c = self.counters;
        self.counters = MetricsCounters {
            tool_call_count: c.tool_call_count + 1,
            total_tool_latency_ms: c.total_tool_latency_ms + latency_ms,
            ..c
        };
    }

    /// Records one hook execution.
    pub fn record_hook_execution(&mut self, latency_ms: u64)
        requires
            old(self)@.hook_execution_count < u64::MAX,
            old(self)@.total_hook_latency_ms + latency_ms <= u64::MAX,
        ensures
            final(self)@ == (MetricsCounters {
                hook_execution_count: (old(self)@.hook_execution_count + 1) as u64,
                total_hook_latency_ms: (old(self)@.total_hook_latency_ms + latency_ms) as u64,
                ..old(self)@
            }),
            final(self).providers() == old(self).providers(),
            final(self).wf() == old(self).wf(),
    {
        let c = self.counters;
        self.counters = MetricsCounters {
            hook_execution_count: c.hook_execution_count + 1,
            total_hook_latency_ms: c.total_hook_latency_ms + latency_ms,
            ..c
        };
    }

    /// Adds cache token usage (prompt caching).
    pub fn record_cache_usage(&mut self, read_tokens: u64, write_tokens: u64)
        requires
            old(self)@.token_usage.cache_read_tokens + read_tokens <= u64::MAX,
            old(self)@.token_usage.cache_write_tokens + write_tokens <= u64::MAX,
        ensures
            final(self)@ == (MetricsCounters {
                token_usage: add_cache(old(self)@.token_usage, read_tokens, write_tokens),
                ..old(self)@
            }),
            final(self).providers() == old(self).providers(),
            final(self).wf() == old(self).wf(),
    {
        let c = self.counters;
        self.counters = MetricsCounters {
            token_usage: TokenUsageBreakdown {
                cache_read_tokens: c.token_usage.cache_read_tokens + read_tokens,
                cache_write_tokens: c.token_usage.cache_write_tokens + write_tokens,
                ..c.token_usage
            },
            ..c
        };
    }

    /// The session's token usage.
    pub fn token_usage(&self) -> (usage: &TokenUsageBreakdown)
        ensures
            *usage == self@.token_usage,
    {
        &self.counters.token_usage
    }

    /// Records an inference attributed to `provider` (globals included).
    pub fn record_inference_for(
        &mut self,
        provider: &str,
        input_tokens: u64,
        output_tokens: u64,
        latency_ms: u64,
    )
        requires
            old(self).wf(),
            old(self)@.llm_call_count < u64::MAX,
            old(self)@.total_inference_latency_ms + latency_ms <= u64::MAX,
            old(self)@.token_usage.input_tokens + input_tokens <= u64::MAX,
            old(self)@.token_usage.output_tokens + output_tokens <= u64::MAX,
            old(self).provider_or_zero(provider@).input_tokens + input_tokens <= u64::MAX,
            old(self).provider_or_zero(provider@).output_tokens + output_tokens <= u64::MAX,
        ensures
            final(self).wf(),
            final(self)@ == (MetricsCounters {
                llm_call_count: (old(self)@.llm_call_count + 1) as u64,
                total_inference_latency_ms: (old(self)@.total_inference_latency_ms
                    + latency_ms) as u64,
                token_usage: add_inference(old(self)@.token_usage, input_tokens, output_tokens),
                ..old(self)@
            }),
            final(self).providers() == old(self).providers().insert(
                provider@,
                add_inference(old(self).provider_or_zero(provider@), input_tokens, output_tokens),
            ),
    {
        self.record_inference(input_tokens, output_tokens, latency_ms);
        let current = match self.per_provider.get(provider) {
            Some(u) => *u,
            None => TokenUsageBreakdown {
                input_tokens: 0,
                output_tokens: 0,
                cache_read_tokens: 0,
                cache_write_tokens: 0,
            },
        };
        let updated = TokenUsageBreakdown {
            input_tokens: current.input_tokens + input_tokens,
            output_tokens: current.output_tokens + output_tokens,
            ..current
        };
        self.per_provider.insert(provider.to_owned(), updated);
    }

    /// Records cache usage attributed to `provider` (globals included).
    pub fn record_cache_usage_for(&mut self, provider: &str, read_tokens: u64, write_tokens: u64)
        requires
            old(self).wf(),
            old(self)@.token_usage.cache_read_tokens + read_tokens <= u64::MAX,
            old(self)@.token_usage.cache_write_tokens + write_tokens <= u64::MAX,
            old(self).provider_or_zero(provider@).cache_read_tokens + read_tokens <= u64::MAX,
            old(self).provider_or_zero(provider@).cache_write_tokens + write_tokens <= u64::MAX,
        ensures
            final(self).wf(),
            final(self)@ == (MetricsCounters {
                token_usage: add_cache(old(self)@.token_usage, read_tokens, write_tokens),
                ..old(self)@
            }),
            final(self).providers() == old(self).providers().insert(
                provider@,
                add_cache(old(self).provider_or_zero(provider@), read_tokens, write_tokens),
            ),
    {
        self.record_cache_usage(read_tokens, write_tokens);
        let current = match self.per_provider.get(provider) {
            Some(u) => *u,
            None => TokenUsageBreakdown {
                input_tokens: 0,
                output_tokens: 0,
                cache_read_tokens: 0,
                cache_write_tokens: 0,
            },
        };
        let updated = TokenUsageBreakdown {
            cache_read_tokens: current.cache_read_tokens + read_tokens,
            cache_write_tokens: current.cache_write_tokens + write_tokens,
            ..current
        };
        self.per_provider.insert(provider.to_owned(), updated);
    }

    /// Token usage of one provider, if any was recorded.
    pub fn provider_usage(&self, provider: &str) -> (usage: Option<&TokenUsageBreakdown>)
        requires
            self.wf(),
        ensures
            match usage {
                Some(u) => self.providers().contains_key(provider@) && *u == self.providers()[provider@],
                None => !self.providers().contains_key(provider@),
            },
    {
        self.per_provider.get(provider)
    }

    pub fn llm_call_count(&self) -> (n: u64)
        ensures
            n == self@.llm_call_count,
    {
        self.counters.llm_call_count
    }

    pub fn tool_call_count(&self) -> (n: u64)
        ensures
            n == self@.tool_call_count,
    {
        self.counters.tool_call_count
    }

    pub fn hook_execution_count(&self) -> (n: u64)
        ensures
            n == self@.hook_execution_count,
    {
        self.counters.hook_execution_count
    }

    pub fn total_inference_latency_ms(&self) -> (n: u64)
        ensures
            n == self@.total_inference_latency_ms,
    {
        self.counters.total_inference_latency_ms
    }

    pub fn total_tool_latency_ms(&self) -> (n: u64)
        ensures
            n == self@.total_tool_latency_ms,
    {
        self.counters.total_tool_latency_ms
    }

    pub fn total_hook_latency_ms(&self) -> (n: u64)
        ensures
            n == self@.total_hook_latency_ms,
    {
        self.counters.total_hook_latency_ms
    }
}

impl Default for MetricsExporter {
    fn default() -> (exporter: Self)
        ensures
            exporter.wf(),
            exporter@.llm_call_count == 0,
            exporter@.token_usage == zero_usage(),
            exporter.providers() == Map::<Seq<char>, TokenUsageBreakdown>::empty(),
    {
        MetricsExporter::new()
    }
}

} // verus!
