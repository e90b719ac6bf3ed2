//! `perfectionist::excessive_nesting` — flag a function body whose
//! constructs nest deeper than the configured maximum.
//!
//! Each construct is a level: an `if` (an `else if` stays at the same
//! level; an `else` body is inside), a `match`, a `for`, `while` or
//! `loop`, a closure, the body of a `let ... else`, and a free-standing
//! block. The block that is a construct's own body is not a level of
//! its own.
use crate::rule_index::DefaultState;
use crate::rules::{Diagnostic, MeasuredFn};
use crate::source::Span;
use vstd::prelude::*;

pub mod emit;

use emit::{emit, nesting_diagnostic};

verus! {

/// The rule's table in `dylint.toml`.
pub const CONFIG_KEY: &'static str = "perfectionist::excessive_nesting";

/// The depth SonarSource's "control flow statements should not be
/// nested too deeply" rule ships with.
pub const DEFAULT_MAX_DEPTH: usize = 3;

/// The rule's configuration.
pub struct Config {
    /// The deepest a construct may sit without the function being
    /// flagged.
    pub max_depth: usize,
    /// Whether test code is left alone.
    pub exempt_tests: bool,
}

impl Config {
    /// `max_depth = 3`, and test code is measured.
    pub fn default() -> (config: Config)
        ensures
            config.max_depth == DEFAULT_MAX_DEPTH,
            !config.exempt_tests,
    {
        Config { max_depth: DEFAULT_MAX_DEPTH, exempt_tests: false }
    }
}

/// One level of nesting.
#[derive(Clone, Copy, Debug, PartialEq, Eq, Structural)]
pub enum Construct {
    /// An `if`: whether its condition binds a pattern (`if let`, a let
    /// chain), and whether it has an `else` branch.
    If { binds: bool, has_else: bool },
    Match,
    For,
    While,
    Loop,
    Closure,
    /// A free-standing block: `unsafe`, or the block a `let` initialises
    /// from.
    Block,
    /// The `else` body of a `let ... else`.
    LetElse,
}

/// The deepest point of a body: the constructs on the way down,
/// outermost first, and where the innermost one sits.
pub struct Deepest {
    pub path: Vec<Construct>,
    pub span: Span,
}

impl Deepest {
    /// How many levels down the deepest point is.
    pub fn depth(&self) -> (depth: usize)
        ensures
            depth == self.path@.len(),
    {
        self.path.len()
    }
}

/// One construct of a body, in the order a walk of the body meets them:
/// what it is, where it sits, and the construct it sits directly inside
/// (an earlier one), if any.
pub struct NestNode {
    pub construct: Construct,
    pub span: Span,
    pub parent: Option<usize>,
}

/// The constructs on the way down to node `i`, outermost first. A parent
/// that does not come before the node is not followed.
pub open spec fn chain(nodes: Seq<NestNode>, i: int) -> Seq<Construct>
    decreases i,
{
    if 0 <= i < nodes.len() {
        match nodes[i].parent {
            Some(p) => if p < i {
                chain(nodes, p as int).push(nodes[i].construct)
            } else {
                seq![nodes[i].construct]
            },
            None => seq![nodes[i].construct],
        }
    } else {
        Seq::empty()
    }
}

/// Whether `deepest` is the deepest point among `nodes`: the way down to
/// the first node that no other node is deeper than.
pub open spec fn is_deepest(nodes: Seq<NestNode>, deepest: Deepest) -> bool {
    exists|best: int|
        0 <= best < nodes.len() && deepest.path@ == chain(nodes, best) && deepest.span
            == nodes[best].span && (forall|j: int|
            0 <= j < nodes.len() ==> (#[trigger] chain(nodes, j)).len() <= chain(nodes, best).len())
            && (forall|j: int|
            0 <= j < best ==> (#[trigger] chain(nodes, j)).len() < chain(nodes, best).len())
}

proof fn lemma_chain_len(nodes: Seq<NestNode>, i: int)
    ensures
        0 <= i < nodes.len() ==> chain(nodes, i).len() >= 1,
        i >= 0 ==> chain(nodes, i).len() <= i + 1,
    decreases i,
{
    if 0 <= i < nodes.len() {
        match nodes[i].parent {
            Some(p) => if p < i {
                lemma_chain_len(nodes, p as int);
            },
            None => {},
        }
    }
}

/// The constructs on the way down to node `i` (see [`chain`]).
fn chain_of(nodes: &[NestNode], i: usize) -> (way: Vec<Construct>)
    requires
        i < nodes@.len(),
    ensures
        way@ == chain(nodes@, i as int),
    decreases i,
{
    let construct = nodes[i].construct;
    match nodes[i].parent {
        Some(p) => if p < i {
            let mut way = chain_of(nodes, p);
            way.push(construct);
            way
        } else {
            let mut way: Vec<Construct> = Vec::new();
            way.push(construct);
            assert(way@ =~= seq![construct]);
            way
        },
        None => {
            let mut way: Vec<Construct> = Vec::new();
            way.push(construct);
            assert(way@ =~= seq![construct]);
            way
        },
    }
}

/// The deepest point of a body whose constructs are `nodes`: the way
/// down to the first construct that no other sits deeper than. `None`
/// for a body with no construct at all.
pub fn deepest(nodes: &[NestNode]) -> (found: Option<Deepest>)
    ensures
        found is None <==> nodes@.len() == 0,
        found matches Some(d) ==> is_deepest(nodes@, d),
{
    let n = nodes.len();
    if n == 0 {
        return None;
    }
    // How deep each node sits.
    let mut depths: Vec<usize> = Vec::new();
    let mut i: usize = 0;
    while i < n
        invariant
            n == nodes@.len(),
            i <= n,
            depths@.len() == i,
            forall|k: int| 0 <= k < i ==> #[trigger] depths@[k] == chain(nodes@, k).len(),
        decreases n - i,
    {
        proof {
            lemma_chain_len(nodes@, i as int);
        }
        let depth: usize = match nodes[i].parent {
            Some(p) => if p < i {
                proof {
                    lemma_chain_len(nodes@, p as int);
                }
                depths[p] + 1
            } else {
                1
            },
            None => 1,
        };
        depths.push(depth);
        i = i + 1;
    }
    let mut best: usize = 0;
    let mut j: usize = 1;
    while j < n
        invariant
            n == nodes@.len(),
            depths@.len() == n,
            forall|k: int| 0 <= k < n ==> #[trigger] depths@[k] == chain(nodes@, k).len(),
            1 <= j <= n,
            best < j,
            forall|k: int| 0 <= k < j ==> (#[trigger] chain(nodes@, k)).len() <= chain(nodes@, best as int).len(),
            forall|k: int| 0 <= k < best ==> (#[trigger] chain(nodes@, k)).len() < chain(nodes@, best as int).len(),
        decreases n - j,
    {
        assert(depths@[j as int] == chain(nodes@, j as int).len());
        assert(depths@[best as int] == chain(nodes@, best as int).len());
        if depths[j] > depths[best] {
            best = j;
        }
        j = j + 1;
    }
    let path = chain_of(nodes, best);
    let found = Deepest { path, span: nodes[best].span };
    assert(is_deepest(nodes@, found));
    Some(found)
}

/// The `excessive_nesting` pass.
pub struct ExcessiveNesting {
    pub config: Config,
}

impl ExcessiveNesting {
    /// A pass with the given configuration.
    pub fn new(config: Config) -> (pass: ExcessiveNesting)
        ensures
            pass.config == config,
    {
        ExcessiveNesting { config }
    }

    /// Active by default.
    pub fn default_state() -> (state: DefaultState)
        ensures
            state == DefaultState::Active,
    {
        DefaultState::Active
    }

    /// The diagnostic for one function: when it is measured at all and
    /// its deepest point is more levels down than the limit.
    pub fn check_fn(&self, function: Option<MeasuredFn>, deepest: Option<Deepest>) -> (report:
        Option<Diagnostic>)
        ensures
            report is Some <==> (function is Some && deepest is Some && deepest->0.path@.len()
                > self.config.max_depth),
            report matches Some(d) ==> nesting_diagnostic(
                function->0,
                deepest->0,
                self.config.max_depth as nat,
                d,
            ),
    {
        let function = match function {
            Some(function) => function,
            None => {
                return None;
            },
        };
        let deepest = match deepest {
            Some(deepest) => deepest,
            None => {
                return None;
            },
        };
        if deepest.depth() <= self.config.max_depth {
            return None;
        }
        Some(emit(&function, &deepest, self.config.max_depth))
    }
}

/// Every construct is a level: the way down to a node whose parent
/// comes before it is the parent's way down with the node's own
/// construct added, one level deeper, whatever the construct is.
pub proof fn lemma_child_one_level_below(nodes: Seq<NestNode>, i: int, p: usize)
    requires
        0 <= i < nodes.len(),
        nodes[i].parent == Some(p),
        p < i,
    ensures
        chain(nodes, i).len() == chain(nodes, p as int).len() + 1,
        chain(nodes, i).last() == nodes[i].construct,
        chain(nodes, i).drop_last() == chain(nodes, p as int),
{
    assert(chain(nodes, i) == chain(nodes, p as int).push(nodes[i].construct));
    assert(chain(nodes, i).drop_last() =~= chain(nodes, p as int));
}

/// A node with no parent is one level deep: its way down is its own
/// construct alone.
pub proof fn lemma_root_is_one_level(nodes: Seq<NestNode>, i: int)
    requires
        0 <= i < nodes.len(),
        nodes[i].parent is None,
    ensures
        chain(nodes, i) == seq![nodes[i].construct],
{
}

/// The deepest point found is at least as deep as any node's way down,
/// a child one level below its parent included.
pub proof fn lemma_deepest_covers_children(nodes: Seq<NestNode>, d: Deepest, i: int, p: usize)
    requires
        is_deepest(nodes, d),
        0 <= i < nodes.len(),
        nodes[i].parent == Some(p),
        p < i,
    ensures
        d.path@.len() >= chain(nodes, p as int).len() + 1,
{
    lemma_child_one_level_below(nodes, i, p);
    let best = choose|best: int|
        0 <= best < nodes.len() && d.path@ == chain(nodes, best) && d.span == nodes[best].span && (
        forall|j: int| 0 <= j < nodes.len() ==> (#[trigger] chain(nodes, j)).len() <= chain(nodes, best).len())
            && (forall|j: int| 0 <= j < best ==> (#[trigger] chain(nodes, j)).len() < chain(nodes, best).len());
    assert(chain(nodes, i).len() <= chain(nodes, best).len());
}

} // verus!
