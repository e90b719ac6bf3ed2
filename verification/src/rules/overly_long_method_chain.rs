//! `perfectionist::overly_long_method_chain` — flag an expression chain
//! with more distinct method calls than the configured maximum.
//!
//! Only method calls on the chain's spine count: the receiver of each
//! call, down to the value the chain starts from. A run of the same
//! method counts once. A `?` or an `.await` between two calls neither
//! counts nor breaks the chain; anything else ends the spine, and so
//! does a call produced by a macro expansion. A chain is measured once,
//! from its head.
use crate::rule_index::DefaultState;
use crate::rules::Diagnostic;
use crate::source::Span;
use crate::text::{chars_of, decimal, extend_str, push_decimal, same_chars, string_of};
use std::collections::HashSet;
use vstd::prelude::*;

verus! {

/// The rule's table in `dylint.toml`.
pub const CONFIG_KEY: &'static str = "perfectionist::overly_long_method_chain";

broadcast use {vstd::string::group_string_axioms, vstd::std_specs::hash::group_hash_axioms};

/// Enough for `iter().filter(..).map(..).collect()` with a call to spare.
pub const DEFAULT_MAX_CALLS: usize = 5;

/// What to do: give the chain the name it withheld.
pub const NAMING_HELP: &'static str = "give a stage a name — bind it to a `let`, or move a run of stages into a function — named for the value it produces, not for the stages it replaces";

/// How to tell the fix did not work.
pub const CUT_HELP: &'static str = "if the only name that fits describes the steps rather than the value (`filtered`, `mapped`, `result`), the cut is in the wrong place; split where the chain produces something you can name";

/// The rule's configuration.
pub struct Config {
    /// The most method calls one chain may have without being flagged.
    pub max_calls: usize,
    /// Whether test code is left alone.
    pub exempt_tests: bool,
}

impl Config {
    /// `max_calls = 5`, and test code is measured.
    pub fn default() -> (config: Config)
        ensures
            config.max_calls == DEFAULT_MAX_CALLS,
            !config.exempt_tests,
    {
        Config { max_calls: DEFAULT_MAX_CALLS, exempt_tests: false }
    }
}

/// One expression on a chain's spine, from the head down its receivers.
#[derive(Clone, Debug)]
pub enum SpineLink {
    /// A method call, by the caller's handle for it and the method's
    /// name; the spine continues at its receiver.
    Call { id: u64, name: String, generated: bool },
    /// The `match` a `receiver?` or `receiver.await` lowers to, whose
    /// scrutinee is a call wrapping the receiver; the spine continues
    /// at the receiver.
    Desugared,
    /// Anything else, which ends the spine.
    Other,
}

/// What the pass knows of one expression.
pub struct ChainExpr {
    /// The caller's handle for the expression.
    pub id: u64,
    /// Whether the expression is a method call.
    pub is_method_call: bool,
    /// Whether the expression comes from a macro expansion.
    pub generated: bool,
    /// The expression and its receivers, down to where the spine ends.
    pub spine: Vec<SpineLink>,
    /// Whether the expression is in test code.
    pub in_test_code: bool,
    pub span: Span,
}

/// The `overly_long_method_chain` pass: its configuration, and the
/// calls already counted as part of an outer chain.
pub struct OverlyLongMethodChain {
    pub config: Config,
    pub counted: HashSet<u64>,
}

/// The calls on the spine, in order, up to where it ends.
pub open spec fn spine_calls(links: Seq<SpineLink>) -> Seq<SpineLink>
    decreases links.len(),
{
    if links.len() == 0 {
        Seq::empty()
    } else {
        match links[0] {
            SpineLink::Call { generated: false, .. } => seq![links[0]] + spine_calls(links.skip(1)),
            SpineLink::Desugared => spine_calls(links.skip(1)),
            _ => Seq::empty(),
        }
    }
}

/// The method name of a call.
pub open spec fn call_name(link: SpineLink) -> Seq<char> {
    match link {
        SpineLink::Call { name, .. } => name@,
        _ => Seq::empty(),
    }
}

/// The call's handle.
pub open spec fn call_id(link: SpineLink) -> u64 {
    match link {
        SpineLink::Call { id, .. } => id,
        _ => 0,
    }
}

/// The number of runs of one method among `calls`: a call counts
/// unless the call before it has the same name.
pub open spec fn distinct_runs(calls: Seq<SpineLink>) -> nat
    decreases calls.len(),
{
    if calls.len() == 0 {
        0
    } else {
        distinct_runs(calls.drop_last()) + (if calls.len() == 1 || call_name(calls.last())
            != call_name(calls[calls.len() - 2]) {
            1nat
        } else {
            0nat
        })
    }
}

/// The handles of the calls on the spine.
pub open spec fn spine_ids(links: Seq<SpineLink>) -> Set<u64> {
    spine_calls(links).map_values(|link: SpineLink| call_id(link)).to_set()
}

/// The noun for `count` calls.
pub open spec fn calls_noun(count: nat) -> Seq<char> {
    if count == 1 {
        "call"@
    } else {
        "calls"@
    }
}

/// The message for a chain of `count` calls against a limit of `max`.
pub open spec fn chain_message(count: nat, max: nat) -> Seq<char> {
    "method chain has "@ + decimal(count) + " distinct "@ + calls_noun(count)
        + ", above the limit of "@ + decimal(max)
}

/// Whether a chain whose head is `expr` is measured at all: a written
/// method call not already counted as part of an outer chain.
pub open spec fn is_measured(counted: Set<u64>, expr: ChainExpr) -> bool {
    expr.is_method_call && !counted.contains(expr.id) && !expr.generated
}

/// A chain is measured once, from its head: once a chain has been
/// measured, no call on its spine is measured again as the head of a
/// chain of its own.
pub proof fn lemma_chain_measured_once(counted: Set<u64>, chain: ChainExpr, later: ChainExpr)
    requires
        spine_ids(chain.spine@).contains(later.id),
    ensures
        !is_measured(counted.union(spine_ids(chain.spine@)), later),
{
}

/// The calls from `start` on, given the name of the call before them.
proof fn lemma_spine_step(links: Seq<SpineLink>, k: int)
    requires
        0 <= k < links.len(),
    ensures
        links.skip(k).skip(1) == links.skip(k + 1),
        links.skip(k)[0] == links[k],
{
    assert(links.skip(k).skip(1) =~= links.skip(k + 1));
}

proof fn lemma_runs_append(calls: Seq<SpineLink>, link: SpineLink)
    ensures
        distinct_runs(calls.push(link)) == distinct_runs(calls) + (if calls.len() == 0 || call_name(
            link,
        ) != call_name(calls.last()) {
            1nat
        } else {
            0nat
        }),
{
    let pushed = calls.push(link);
    assert(pushed.drop_last() =~= calls);
    if calls.len() > 0 {
        assert(pushed[pushed.len() - 2] == calls.last());
    }
}

impl OverlyLongMethodChain {
    /// A pass with the given configuration that has counted nothing.
    pub fn new(config: Config) -> (pass: OverlyLongMethodChain)
        ensures
            pass.config == config,
            pass.counted@ == Set::<u64>::empty(),
    {
        OverlyLongMethodChain { config, counted: HashSet::new() }
    }

    /// Inactive by default: where a chain stops being readable is a
    /// matter of taste, so a crate opts in.
    pub fn default_state() -> (state: DefaultState)
        ensures
            state == DefaultState::Inactive,
    {
        DefaultState::Inactive
    }

    /// The number of method calls from the head down its receivers, a
    /// run of one method counted once, marking each call so it is not
    /// measured again as a chain of its own.
    pub fn count_spine(&mut self, spine: &[SpineLink]) -> (count: usize)
        ensures
            count == distinct_runs(spine_calls(spine@)),
            final(self).counted@ == old(self).counted@.union(spine_ids(spine@)),
            final(self).config == old(self).config,
    {
        let n = spine.len();
        let mut count: usize = 0;
        let mut previous: Option<&String> = None;
        let ghost mut done: Seq<SpineLink> = Seq::empty();
        let mut k: usize = 0;
        let mut stop = false;
        proof {
            assert(spine@.skip(0) =~= spine@);
            assert(done + spine_calls(spine@.skip(0)) =~= spine_calls(spine@));
        }
        while k < n && !stop
            invariant
                n == spine@.len(),
                k <= n,
                stop ==> k < n && spine_calls(spine@.skip(k as int)) == Seq::<SpineLink>::empty(),
                done + spine_calls(spine@.skip(k as int)) == spine_calls(spine@),
                count == distinct_runs(done),
                count <= done.len(),
                done.len() <= k,
                match previous {
                    Some(name) => done.len() > 0 && name@ == call_name(done.last()),
                    None => done.len() == 0,
                },
                self.counted@ == old(self).counted@.union(
                    done.map_values(|link: SpineLink| call_id(link)).to_set(),
                ),
                self.config == old(self).config,
            decreases n - k + (if stop {
                0int
            } else {
                1int
            }),
        {
            proof {
                lemma_spine_step(spine@, k as int);
            }
            match &spine[k] {
                SpineLink::Call { id, name, generated } => {
                    if *generated {
                        stop = true;
                        proof {
                            assert(spine_calls(spine@.skip(k as int)) =~= Seq::<SpineLink>::empty());
                        }
                        continue;
                    }
                    let ghost old_done = done;
                    let ghost old_counted = self.counted@;
                    self.counted.insert(*id);
                    let differs = match previous {
                        Some(prev) => !same_chars(
                            chars_of(prev.as_str()).as_slice(),
                            chars_of(name.as_str()).as_slice(),
                        ),
                        None => true,
                    };
                    proof {
                        lemma_runs_append(old_done, spine@[k as int]);
                        done = old_done.push(spine@[k as int]);
                        assert(seq![spine@[k as int]] + spine_calls(spine@.skip(k + 1))
                            == spine_calls(spine@.skip(k as int)));
                        assert(old_done + spine_calls(spine@.skip(k as int)) =~= done
                            + spine_calls(spine@.skip(k + 1)));
                        assert(done.map_values(|link: SpineLink| call_id(link)) =~= old_done.map_values(
                            |link: SpineLink| call_id(link),
                        ).push(*id));
                        let ids = old_done.map_values(|link: SpineLink| call_id(link));
                        assert(done.map_values(|link: SpineLink| call_id(link)) =~= ids + seq![*id]);
                        Seq::<u64>::lemma_to_set_insert_commutes(ids, *id);
                        assert(self.counted@ =~= old(self).counted@.union(
                            done.map_values(|link: SpineLink| call_id(link)).to_set(),
                        ));
                        assert(done.last() == spine@[k as int]);
                    }
                    if differs {
                        count = count + 1;
                    }
                    previous = Some(name);
                },
                SpineLink::Desugared => {},
                SpineLink::Other => {
                    stop = true;
                    proof {
                        assert(spine_calls(spine@.skip(k as int)) =~= Seq::<SpineLink>::empty());
                    }
                    continue;
                },
            }
            k = k + 1;
        }
        proof {
            if !stop {
                assert(spine@.skip(k as int) =~= Seq::<SpineLink>::empty());
            }
            assert(done =~= spine_calls(spine@));
        }
        count
    }

    /// The diagnostic for a chain headed by `expr`: when the head is a
    /// written method call not yet counted, the spine holds more
    /// distinct calls than the limit, and it is not exempt test code.
    /// Every call on a measured spine is marked counted.
    pub fn check_expr(&mut self, expr: &ChainExpr) -> (report: Option<Diagnostic>)
        ensures
            final(self).config == old(self).config,
            !is_measured(old(self).counted@, *expr) ==> report is None && final(self).counted@
                == old(self).counted@,
            is_measured(old(self).counted@, *expr) ==> {
                let count = distinct_runs(spine_calls(expr.spine@));
                &&& final(self).counted@ == old(self).counted@.union(spine_ids(expr.spine@))
                &&& report is Some <==> (count > old(self).config.max_calls && !(
                old(self).config.exempt_tests && expr.in_test_code))
                &&& report matches Some(d) ==> {
                    &&& d.span == expr.span
                    &&& d.message@ == chain_message(count, old(self).config.max_calls as nat)
                    &&& d.note is None
                    &&& d.helps@.len() == 2 && d.helps@[0]@ == NAMING_HELP@ && d.helps@[1]@
                        == CUT_HELP@
                }
            },
    {
        if !expr.is_method_call || self.counted.contains(&expr.id) {
            return None;
        }
        if expr.generated {
            return None;
        }
        let count = self.count_spine(expr.spine.as_slice());
        if count <= self.config.max_calls {
            return None;
        }
        if self.config.exempt_tests && expr.in_test_code {
            return None;
        }
        let max = self.config.max_calls;
        let mut message = chars_of("method chain has ");
        push_decimal(&mut message, count);
        extend_str(&mut message, " distinct ");
        if count == 1 {
            extend_str(&mut message, "call");
        } else {
            extend_str(&mut message, "calls");
        }
        extend_str(&mut message, ", above the limit of ");
        push_decimal(&mut message, max);
        let mut helps: Vec<&'static str> = Vec::new();
        helps.push(NAMING_HELP);
        helps.push(CUT_HELP);
        Some(
            Diagnostic {
                span: expr.span,
                message: string_of(message.as_slice()),
                note: None,
                helps,
            },
        )
    }
}

} // verus!
