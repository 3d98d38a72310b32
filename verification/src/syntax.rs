//! The outline of a Python module: its syntax tree as a flat list of nodes in source order.
use crate::text::{byte_len, chars, lemma_byte_len_monotone, width};
use ruff_python_ast::visitor::source_order::{walk_node, SourceOrderVisitor, TraversalSignal};
use ruff_python_ast::AnyNodeRef;
use ruff_text_size::Ranged;
use vstd::prelude::*;

verus! {

// ---------------------------------------------------------------------------
// Nodes
// ---------------------------------------------------------------------------

/// What a node of the outline is.
#[derive(Clone, Copy, PartialEq, Eq, Structural, Debug)]
pub enum Kind {
    /// The module itself.
    Module,
    /// `def` and `async def`.
    FunctionDef,
    ClassDef,
    Import,
    ImportFrom,
    If,
    /// An `elif` or `else` clause of an `if`.
    ElifElse,
    For,
    While,
    With,
    Match,
    /// A `case` of a `match`.
    Case,
    Try,
    /// An `except` clause of a `try`.
    Handler,
    Global,
    Nonlocal,
    Assign,
    AugAssign,
    /// Any other statement.
    Statement,
    /// One imported name with its `as` name.
    Alias,
    /// A name written outside an expression: of a definition, parameter, alias and so on.
    Identifier,
    /// A name in an expression whose value is read.
    Load,
    /// A name in an expression that is bound or deleted.
    Store,
    Attribute,
    List,
    Tuple,
    /// A string literal, implicit concatenation included.
    Str,
    /// A parameter of a function or a lambda.
    Parameter,
    /// A type parameter `T`.
    TypeVar,
    /// A type parameter `*Ts`.
    TypeVarTuple,
    /// A type parameter `**P`.
    ParamSpec,
    /// The pattern of `case x`, `case p as x` and `case _`.
    MatchAs,
    /// The pattern `*x` in a sequence.
    MatchStar,
    /// The pattern of `case {...}`, whose rest can have a name.
    MatchMapping,
    /// Any other node.
    Other,
}

/// One node of the outline.
pub struct Node {
    pub kind: Kind,
    /// The position of the enclosing node; the first node encloses itself.
    pub parent: usize,
    /// The byte offset at which the node starts.
    pub start: u32,
    /// The byte offset just past the node.
    pub end: u32,
    /// The name of a name, identifier or attribute, and the value of a string.
    pub text: String,
    /// The number of leading dots of a `from` import.
    pub level: u32,
    /// The byte offset of the first statement behind the `else` of a loop or a `try`.
    pub else_start: Option<u32>,
    /// The byte offset of the first statement behind the `finally` of a `try`.
    pub finally_start: Option<u32>,
}

/// What a [`Node`] says.
#[verifier::ext_equal]
pub struct NodeView {
    pub kind: Kind,
    pub parent: int,
    pub start: int,
    pub end: int,
    pub text: Seq<char>,
    pub level: int,
    pub else_start: Option<u32>,
    pub finally_start: Option<u32>,
}

impl View for Node {
    type V = NodeView;

    open spec fn view(&self) -> NodeView {
        NodeView {
            kind: self.kind,
            parent: self.parent as int,
            start: self.start as int,
            end: self.end as int,
            text: self.text@,
            level: self.level as int,
            else_start: self.else_start,
            finally_start: self.finally_start,
        }
    }
}

/// What a list of nodes says.
pub open spec fn views(nodes: Seq<Node>) -> Seq<NodeView> {
    nodes.map_values(|n: Node| n@)
}

/// Every node but the first stands behind the node that encloses it.
pub open spec fn well_formed(nodes: Seq<NodeView>) -> bool {
    &&& forall|i: int| 0 < i < nodes.len() ==> 0 <= (#[trigger] nodes[i]).parent < i
    &&& nodes.len() > 0 ==> nodes[0].parent == 0
}

// ---------------------------------------------------------------------------
// The walk through the tree
// ---------------------------------------------------------------------------

/// What a walk through the parser's tree shows of a node.
pub struct Seen {
    pub is_statement: bool,
    /// What the node is, if it is a statement.
    pub statement: Kind,
    /// What the node is, if it is a parameter or a pattern that can bind a name.
    pub binder: Kind,
    /// What the node is, if it is none of these and no name in an expression.
    pub part: Kind,
    /// Whether a name in an expression is read; `None` for any other node.
    pub load: Option<bool>,
    pub start: u32,
    pub end: u32,
    pub text: String,
    pub level: u32,
    pub else_start: Option<u32>,
    pub finally_start: Option<u32>,
}

/// What a [`Seen`] says.
#[verifier::ext_equal]
pub struct SeenView {
    pub is_statement: bool,
    pub statement: Kind,
    pub binder: Kind,
    pub part: Kind,
    pub load: Option<bool>,
    pub start: int,
    pub end: int,
    pub text: Seq<char>,
    pub level: int,
    pub else_start: Option<u32>,
    pub finally_start: Option<u32>,
}

impl View for Seen {
    type V = SeenView;

    open spec fn view(&self) -> SeenView {
        SeenView {
            is_statement: self.is_statement,
            statement: self.statement,
            binder: self.binder,
            part: self.part,
            load: self.load,
            start: self.start as int,
            end: self.end as int,
            text: self.text@,
            level: self.level as int,
            else_start: self.else_start,
            finally_start: self.finally_start,
        }
    }
}

/// One step of a walk: into a node, or out of the node entered last.
pub enum Step {
    Enter(Seen),
    Leave,
}

/// What a [`Step`] says.
#[verifier::ext_equal]
pub enum StepView {
    Enter(SeenView),
    Leave,
}

impl View for Step {
    type V = StepView;

    open spec fn view(&self) -> StepView {
        match self {
            Step::Enter(seen) => StepView::Enter(seen@),
            Step::Leave => StepView::Leave,
        }
    }
}

/// What several steps say.
pub open spec fn step_views(v: Seq<Step>) -> Seq<StepView> {
    v.map_values(|s: Step| s@)
}

/// `ruff_python_ast::AnyNodeRef`: a reference to a node of the parser's tree.
#[verifier::external_type_specification]
#[verifier::external_body]
pub struct ExAnyNodeRef<'a>(AnyNodeRef<'a>);

/// `ruff_python_ast::visitor::source_order::TraversalSignal`: whether a walk goes into a node.
#[verifier::external_type_specification]
#[verifier::external_body]
pub struct ExTraversalSignal(TraversalSignal);

/// What a node of the parser's tree is, if it is a statement.
pub uninterp spec fn statement_variant(node: AnyNodeRef<'_>) -> Kind;

/// Tells the statement variants of `ruff_python_ast::AnyNodeRef` apart. The result is a function
/// of the node.
#[verifier::external_body]
fn statement_kind(node: &AnyNodeRef<'_>) -> (r: Kind)
    ensures
        r == statement_variant(*node),
{
    match node {
        AnyNodeRef::StmtFunctionDef(_) => Kind::FunctionDef,
        AnyNodeRef::StmtClassDef(_) => Kind::ClassDef,
        AnyNodeRef::StmtImport(_) => Kind::Import,
        AnyNodeRef::StmtImportFrom(_) => Kind::ImportFrom,
        AnyNodeRef::StmtIf(_) => Kind::If, AnyNodeRef::StmtFor(_) => Kind::For,
        AnyNodeRef::StmtWhile(_) => Kind::While, AnyNodeRef::StmtWith(_) => Kind::With,
        AnyNodeRef::StmtMatch(_) => Kind::Match, AnyNodeRef::StmtTry(_) => Kind::Try,
        AnyNodeRef::StmtGlobal(_) => Kind::Global,
        AnyNodeRef::StmtNonlocal(_) => Kind::Nonlocal,
        AnyNodeRef::StmtAssign(_) => Kind::Assign,
        AnyNodeRef::StmtAugAssign(_) => Kind::AugAssign,
        _ => Kind::Statement,
    }
}

/// What a node of the parser's tree is, if it is neither a statement, nor a name in an expression,
/// nor a parameter or pattern that can bind a name.
pub uninterp spec fn part_variant(node: AnyNodeRef<'_>) -> Kind;

/// Tells other variants of `ruff_python_ast::AnyNodeRef` apart: the module, clauses, names outside
/// expressions, and some expressions. The result is a function of the node.
#[verifier::external_body]
fn part_kind(node: &AnyNodeRef<'_>) -> (r: Kind)
    ensures
        r == part_variant(*node),
{
    match node {
        AnyNodeRef::ModModule(_) => Kind::Module,
        AnyNodeRef::Alias(_) => Kind::Alias,
        AnyNodeRef::ElifElseClause(_) => Kind::ElifElse,
        AnyNodeRef::MatchCase(_) => Kind::Case,
        AnyNodeRef::ExceptHandlerExceptHandler(_) => Kind::Handler,
        AnyNodeRef::Identifier(_) => Kind::Identifier,
        AnyNodeRef::ExprAttribute(_) => Kind::Attribute,
        AnyNodeRef::ExprList(_) => Kind::List,
        AnyNodeRef::ExprTuple(_) => Kind::Tuple,
        AnyNodeRef::ExprStringLiteral(_) => Kind::Str,
        _ => Kind::Other,
    }
}

/// What a node of the parser's tree is, if it is a parameter or a pattern that can bind a name.
pub uninterp spec fn binder_variant(node: AnyNodeRef<'_>) -> Kind;

/// Tells the variants of `ruff_python_ast::AnyNodeRef` apart that are parameters, type parameters
/// or patterns that can bind a name. The result is a function of the node.
#[verifier::external_body]
fn binder_kind(node: &AnyNodeRef<'_>) -> (r: Kind)
    ensures
        r == binder_variant(*node),
{
    match node {
        AnyNodeRef::Parameter(_) => Kind::Parameter,
        AnyNodeRef::TypeParamTypeVar(_) => Kind::TypeVar,
        AnyNodeRef::TypeParamTypeVarTuple(_) => Kind::TypeVarTuple,
        AnyNodeRef::TypeParamParamSpec(_) => Kind::ParamSpec,
        AnyNodeRef::PatternMatchAs(_) => Kind::MatchAs,
        AnyNodeRef::PatternMatchStar(_) => Kind::MatchStar,
        AnyNodeRef::PatternMatchMapping(_) => Kind::MatchMapping,
        _ => Kind::Other,
    }
}

/// Whether a node of the parser's tree is a statement.
pub uninterp spec fn is_statement_node(node: AnyNodeRef<'_>) -> bool;

/// Calls `ruff_python_ast::AnyNodeRef::is_statement`, which is true of the variants that are
/// statements. The result is a function of the node.
#[verifier::external_body]
fn is_statement(node: &AnyNodeRef<'_>) -> (r: bool)
    ensures
        r == is_statement_node(*node),
{
    node.is_statement()
}

/// Whether a name in an expression is read; `None` for any other node.
pub uninterp spec fn load_of(node: AnyNodeRef<'_>) -> Option<bool>;

/// Calls `ruff_python_ast::ExprContext::is_load` on the context of a name expression; other
/// nodes have none. The result is a function of the node.
#[verifier::external_body]
fn name_is_load(node: &AnyNodeRef<'_>) -> (r: Option<bool>)
    ensures
        r == load_of(*node),
{
    match node {
        AnyNodeRef::ExprName(name) => Some(name.ctx.is_load()),
        _ => None,
    }
}

/// The name of a name, identifier or attribute, and the value of a string literal.
pub uninterp spec fn text_of_node(node: AnyNodeRef<'_>) -> Seq<char>;

/// Reads the name of a name, identifier or attribute, and the value of a string literal, from
/// the fields of the `ruff_python_ast` node. The result is a function of the node.
#[verifier::external_body]
fn node_text(node: &AnyNodeRef<'_>) -> (r: String)
    ensures
        r@ == text_of_node(*node),
{
    match node {
        AnyNodeRef::ExprName(name) => name.id.to_string(),
        AnyNodeRef::Identifier(name) => name.id.to_string(),
        AnyNodeRef::ExprAttribute(attribute) => attribute.attr.id.to_string(),
        AnyNodeRef::ExprStringLiteral(literal) => literal.value.to_str().to_owned(),
        _ => String::new(),
    }
}

/// How many dots stand before the module of a `from` import.
pub uninterp spec fn level_of_node(node: AnyNodeRef<'_>) -> u32;

/// Reads the `level` field of `ruff_python_ast::StmtImportFrom`. The result is a function of the
/// node.
#[verifier::external_body]
fn node_level(node: &AnyNodeRef<'_>) -> (r: u32)
    ensures
        r == level_of_node(*node),
{
    match node {
        AnyNodeRef::StmtImportFrom(import) => import.level,
        _ => 0,
    }
}

/// The byte offsets at which a node of the parser's tree starts and ends.
pub uninterp spec fn range_of_node(node: AnyNodeRef<'_>) -> (u32, u32);

/// Calls `ruff_text_size::Ranged::range` and gives both ends of the range. The result is a
/// function of the node.
#[verifier::external_body]
fn node_range(node: &AnyNodeRef<'_>) -> (r: (u32, u32))
    ensures
        r == range_of_node(*node),
{
    (u32::from(node.range().start()), u32::from(node.range().end()))
}

/// Where the first statement behind the `else` of a loop or a `try` starts.
pub uninterp spec fn else_of_node(node: AnyNodeRef<'_>) -> Option<u32>;

/// Calls `ruff_text_size::Ranged::start` on the first statement of the `orelse` field of the
/// `ruff_python_ast` loops and of its `StmtTry`. The result is a function of the node.
#[verifier::external_body]
fn node_else(node: &AnyNodeRef<'_>) -> (r: Option<u32>)
    ensures
        r == else_of_node(*node),
{
    match node {
        AnyNodeRef::StmtFor(s) => s.orelse.first().map(|first| u32::from(first.start())),
        AnyNodeRef::StmtWhile(s) => s.orelse.first().map(|first| u32::from(first.start())),
        AnyNodeRef::StmtTry(s) => s.orelse.first().map(|first| u32::from(first.start())),
        _ => None,
    }
}

/// Where the first statement behind the `finally` of a `try` starts.
pub uninterp spec fn finally_of_node(node: AnyNodeRef<'_>) -> Option<u32>;

/// Calls `ruff_text_size::Ranged::start` on the first statement of the `finalbody` field of
/// `ruff_python_ast::StmtTry`. The result is a function of the node.
#[verifier::external_body]
fn node_finally(node: &AnyNodeRef<'_>) -> (r: Option<u32>)
    ensures
        r == finally_of_node(*node),
{
    match node {
        AnyNodeRef::StmtTry(s) => s.finalbody.first().map(|first| u32::from(first.start())),
        _ => None,
    }
}

/// Whether a walk goes into a node: what `TraversalSignal::is_traverse` says of the answer.
pub uninterp spec fn goes_inside(signal: TraversalSignal) -> bool;

/// Gives `TraversalSignal::Traverse`, of which `TraversalSignal::is_traverse` is true.
#[verifier::external_body]
fn go_inside() -> (r: TraversalSignal)
    ensures
        goes_inside(r),
{
    TraversalSignal::Traverse
}

/// What a walk shows of a node.
pub open spec fn seen_of(node: AnyNodeRef<'_>) -> SeenView {
    SeenView {
        is_statement: is_statement_node(node),
        statement: statement_variant(node),
        binder: binder_variant(node),
        part: part_variant(node),
        load: load_of(node),
        start: range_of_node(node).0 as int,
        end: range_of_node(node).1 as int,
        text: text_of_node(node),
        level: level_of_node(node) as int,
        else_start: else_of_node(node),
        finally_start: finally_of_node(node),
    }
}

/// Takes down the steps of a walk.
pub struct Recorder {
    pub steps: Vec<Step>,
}

impl<'a> SourceOrderVisitor<'a> for Recorder {
    /// Takes down what the walk shows of a node, and lets it go inside.
    fn enter_node(&mut self, node: AnyNodeRef<'a>) -> (signal: TraversalSignal)
        ensures
            step_views(final(self).steps@) == step_views(old(self).steps@).push(
                StepView::Enter(seen_of(node)),
            ),
            goes_inside(signal),
    {
        let range = node_range(&node);
        let seen = Seen {
            is_statement: is_statement(&node),
            statement: statement_kind(&node),
            binder: binder_kind(&node),
            part: part_kind(&node),
            load: name_is_load(&node),
            start: range.0,
            end: range.1,
            text: node_text(&node),
            level: node_level(&node),
            else_start: node_else(&node),
            finally_start: node_finally(&node),
        };
        assert(seen@ == seen_of(node));
        self.steps.push(Step::Enter(seen));
        assert(step_views(self.steps@) =~= step_views(old(self).steps@).push(
            StepView::Enter(seen_of(node)),
        ));
        go_inside()
    }

    /// Takes down that the walk leaves the node that it entered last.
    fn leave_node(&mut self, _node: AnyNodeRef<'a>)
        ensures
            step_views(final(self).steps@) == step_views(old(self).steps@).push(StepView::Leave),
    {
        self.steps.push(Step::Leave);
        assert(step_views(self.steps@) =~= step_views(old(self).steps@).push(StepView::Leave));
    }
}

/// The steps of a walk through the parser's tree of `source`, `None` where the parser finds a
/// syntax error.
pub uninterp spec fn python_walk(source: Seq<char>) -> Option<Seq<StepView>>;

/// Calls `ruff_python_parser::parse_module`, which parses a whole module or gives its first
/// syntax error, then walks the tree with `ruff_python_ast::visitor::source_order::walk_node`,
/// which reports every node of it in source order, each before and after the nodes inside it.
/// What it reports is a function of the source text alone, named [`python_walk`]. The parser
/// counts bytes with 32 bits and panics on a longer text.
#[verifier::external_body]
fn parse_and_walk(source: &str) -> (r: Option<Vec<Step>>)
    requires
        byte_len(source@) <= u32::MAX,
    ensures
        match r {
            Some(steps) => python_walk(source@) == Some(step_views(steps@)),
            None => python_walk(source@) is None,
        },
{
    let parsed = ruff_python_parser::parse_module(source).ok()?;
    let mut recorder = Recorder { steps: Vec::new() };
    walk_node(&mut recorder, AnyNodeRef::from(parsed.syntax()));
    Some(recorder.steps)
}

// ---------------------------------------------------------------------------
// The outline
// ---------------------------------------------------------------------------

/// What a node of the outline is: a name in an expression by its use, or else a statement, or else
/// a parameter or a pattern that can bind a name, or else another part of a statement.
pub open spec fn kind_of(seen: SeenView) -> Kind {
    match seen.load {
        Some(true) => Kind::Load,
        Some(false) => Kind::Store,
        None => if seen.is_statement {
            seen.statement
        } else if seen.binder != Kind::Other {
            seen.binder
        } else {
            seen.part
        },
    }
}

/// The nodes entered so far, and those of them that were not left.
#[verifier::ext_equal]
pub struct TreeView {
    pub nodes: Seq<NodeView>,
    pub open: Seq<int>,
}

/// The node that encloses the next one: the last that was entered and not left, or else the first
/// of all.
pub open spec fn enclosing(open: Seq<int>) -> int {
    if open.len() == 0 {
        0
    } else {
        open.last()
    }
}

/// The tree after the first `n` steps of a walk.
pub open spec fn tree_after(steps: Seq<StepView>, n: int) -> TreeView
    decreases n,
{
    if n <= 0 {
        TreeView { nodes: Seq::empty(), open: Seq::empty() }
    } else {
        let before = tree_after(steps, n - 1);
        match steps[n - 1] {
            StepView::Enter(seen) => TreeView {
                nodes: before.nodes.push(
                    NodeView {
                        kind: kind_of(seen),
                        parent: enclosing(before.open),
                        start: seen.start,
                        end: seen.end,
                        text: seen.text,
                        level: seen.level,
                        else_start: seen.else_start,
                        finally_start: seen.finally_start,
                    },
                ),
                open: before.open.push(before.nodes.len() as int),
            },
            StepView::Leave => TreeView {
                nodes: before.nodes,
                open: if before.open.len() > 0 {
                    before.open.drop_last()
                } else {
                    before.open
                },
            },
        }
    }
}

/// The outline that a walk gives.
pub open spec fn outline_from(steps: Seq<StepView>) -> Seq<NodeView> {
    tree_after(steps, steps.len() as int).nodes
}

/// In every outline each node stands behind the one that encloses it.
pub proof fn law_outlines_are_well_formed(steps: Seq<StepView>, n: int)
    ensures
        well_formed(tree_after(steps, n).nodes),
        forall|k: int|
            0 <= k < tree_after(steps, n).open.len() ==> 0 <= #[trigger] tree_after(
                steps,
                n,
            ).open[k] < tree_after(steps, n).nodes.len(),
    decreases n,
{
    if n > 0 {
        law_outlines_are_well_formed(steps, n - 1);
        let before = tree_after(steps, n - 1);
        let now = tree_after(steps, n);
        assert forall|k: int| 0 <= k < now.open.len() implies 0 <= #[trigger] now.open[k]
            < now.nodes.len() by {
            if k < before.open.len() {
                assert(now.open[k] == before.open[k]);
            }
        }
        assert forall|i: int| 0 < i < now.nodes.len() implies 0 <= (#[trigger] now.nodes[i]).parent
            < i by {
            if i < before.nodes.len() {
                assert(now.nodes[i] == before.nodes[i]);
            } else if before.open.len() > 0 {
                assert(before.open[before.open.len() - 1] < before.nodes.len());
            }
        }
        if now.nodes.len() > 0 && before.nodes.len() == 0 && before.open.len() > 0 {
            assert(before.open[0] < before.nodes.len());
        }
    }
}

/// What a node of the outline is.
fn kind_seen(seen: &Seen) -> (r: Kind)
    ensures
        r == kind_of(seen@),
{
    match seen.load {
        Some(true) => Kind::Load,
        Some(false) => Kind::Store,
        None => if seen.is_statement {
            seen.statement
        } else if seen.binder != Kind::Other {
            seen.binder
        } else {
            seen.part
        },
    }
}

/// What a list of positions says.
pub open spec fn positions(v: Seq<usize>) -> Seq<int> {
    v.map_values(|i: usize| i as int)
}

/// The outline that a walk gives.
fn build_outline(steps: Vec<Step>) -> (r: Vec<Node>)
    ensures
        views(r@) == outline_from(step_views(steps@)),
{
    let ghost all = step_views(steps@);
    let mut nodes: Vec<Node> = Vec::new();
    let mut open: Vec<usize> = Vec::new();
    let mut i: usize = 0;
    assert(views(nodes@) =~= Seq::empty());
    assert(positions(open@) =~= Seq::empty());
    while i < steps.len()
        invariant
            i <= steps@.len(),
            all == step_views(steps@),
            views(nodes@) == tree_after(all, i as int).nodes,
            positions(open@) == tree_after(all, i as int).open,
        decreases steps@.len() - i,
    {
        assert(all[i as int] == steps@[i as int]@);
        let ghost nodes_before = nodes@;
        let ghost open_before = open@;
        match &steps[i] {
            Step::Enter(seen) => {
                let index: usize = nodes.len();
                let depth: usize = open.len();
                assert(positions(open@).len() == depth);
                let parent: usize = if depth == 0 {
                    0
                } else {
                    assert(positions(open@)[depth - 1] == open@[depth - 1]);
                    open[depth - 1]
                };
                let node = Node {
                    kind: kind_seen(seen),
                    parent,
                    start: seen.start,
                    end: seen.end,
                    text: seen.text.clone(),
                    level: seen.level,
                    else_start: seen.else_start,
                    finally_start: seen.finally_start,
                };
                nodes.push(node);
                open.push(index);
                assert(views(nodes@) =~= views(nodes_before).push(node@));
                assert(positions(open@) =~= positions(open_before).push(index as int));
                assert(views(nodes_before).len() == index);
            },
            Step::Leave => {
                let _ = open.pop();
                proof {
                    assert(positions(open_before).len() == open_before.len());
                    if open_before.len() > 0 {
                        assert(positions(open@) =~= positions(open_before).drop_last());
                    } else {
                        assert(positions(open@) =~= positions(open_before));
                    }
                }
            },
        }
        i += 1;
    }
    nodes
}

/// The outline of a source text; a text that is no Python, or whose byte offsets do not fit in
/// 32 bits, has none.
pub open spec fn outline_of(source: Seq<char>) -> Option<Seq<NodeView>> {
    if byte_len(source) > u32::MAX {
        None
    } else {
        match python_walk(source) {
            Some(steps) => Some(outline_from(steps)),
            None => None,
        }
    }
}

/// Whether the byte offsets into a text fit in 32 bits.
pub fn fits_offsets(source: &[char]) -> (r: bool)
    ensures
        r == (byte_len(source@) <= u32::MAX),
{
    let mut total: u32 = 0;
    let mut i: usize = 0;
    assert(source@.take(source@.len() as int) =~= source@);
    while i < source.len()
        invariant
            i <= source@.len(),
            total == byte_len(source@.take(i as int)),
            source@.take(source@.len() as int) == source@,
        decreases source@.len() - i,
    {
        assert(source@.take(i + 1).drop_last() =~= source@.take(i as int));
        let w: usize = width(source[i]);
        if total > 0xFFFF_FFFF - w as u32 {
            proof {
                lemma_byte_len_monotone(source@, i + 1, source@.len() as int);
            }
            return false;
        }
        total = total + w as u32;
        i += 1;
    }
    true
}

/// Whether `source` is a Python module that can be outlined.
pub open spec fn parses(source: Seq<char>) -> bool {
    outline_of(source) is Some
}

/// The nodes of a module; none where `source` is no Python module.
pub open spec fn module_nodes(source: Seq<char>) -> Seq<NodeView> {
    match outline_of(source) {
        Some(nodes) => nodes,
        None => Seq::empty(),
    }
}

/// Outlines a module; `None` where `source` is no Python module.
pub fn outline(source: &str) -> (r: Option<Vec<Node>>)
    ensures
        match r {
            Some(nodes) => outline_of(source@) == Some(views(nodes@)) && well_formed(views(nodes@)),
            None => outline_of(source@) is None,
        },
{
    let text = chars(source);
    if !fits_offsets(text.as_slice()) {
        return None;
    }
    match parse_and_walk(source) {
        Some(steps) => {
            proof {
                law_outlines_are_well_formed(step_views(steps@), steps@.len() as int);
            }
            Some(build_outline(steps))
        },
        None => None,
    }
}

/// The nodes of a module; none where `source` is no Python module.
pub fn parse_module_stmts(source: &str) -> (r: Vec<Node>)
    ensures
        views(r@) == module_nodes(source@),
        well_formed(views(r@)),
{
    match outline(source) {
        Some(nodes) => nodes,
        None => {
            let none: Vec<Node> = Vec::new();
            assert(views(none@) =~= Seq::empty());
            none
        },
    }
}

/// Every node that is entered has its place in the outline, with its range, its text and its level;
/// leaving one adds nothing, and no node that is there changes.
pub proof fn law_every_entered_node_is_outlined(steps: Seq<StepView>, n: int)
    requires
        0 <= n < steps.len(),
    ensures
        ({
            let before = tree_after(steps, n).nodes;
            let after = tree_after(steps, n + 1).nodes;
            match steps[n] {
                StepView::Enter(seen) => {
                    &&& after.len() == before.len() + 1
                    &&& before.is_prefix_of(after)
                    &&& after.last().start == seen.start
                    &&& after.last().end == seen.end
                    &&& after.last().text == seen.text
                    &&& after.last().level == seen.level
                    &&& after.last().else_start == seen.else_start
                    &&& after.last().finally_start == seen.finally_start
                },
                StepView::Leave => after == before,
            }
        }),
{
    let before = tree_after(steps, n).nodes;
    let after = tree_after(steps, n + 1).nodes;
    if steps[n] is Enter {
        assert(after.take(before.len() as int) =~= before);
    }
}

/// A name in an expression is told by its use; else a statement is one of its kind, and what is no
/// statement is what binds a name, or else another part.
pub proof fn law_nodes_have_their_kind(seen: SeenView)
    ensures
        seen.load == Some(true) ==> kind_of(seen) == Kind::Load,
        seen.load == Some(false) ==> kind_of(seen) == Kind::Store,
        seen.load is None && seen.is_statement ==> kind_of(seen) == seen.statement,
        seen.load is None && !seen.is_statement && seen.binder != Kind::Other ==> kind_of(seen)
            == seen.binder,
        seen.load is None && !seen.is_statement && seen.binder == Kind::Other ==> kind_of(seen)
            == seen.part,
{
}

/// How many more nodes were entered than left from step `i` up to step `k`.
pub open spec fn depth(steps: Seq<StepView>, i: int, k: int) -> int
    decreases k - i,
{
    if k <= i {
        0
    } else {
        depth(steps, i, k - 1) + if steps[k - 1] is Enter {
            1int
        } else {
            -1
        }
    }
}

proof fn lemma_open(steps: Seq<StepView>, i: int, k: int)
    requires
        0 <= i <= k <= steps.len(),
        forall|j: int| i <= j <= k ==> #[trigger] depth(steps, i, j) >= 0,
    ensures
        tree_after(steps, k).open.len() == tree_after(steps, i).open.len() + depth(steps, i, k),
        tree_after(steps, i).open.is_prefix_of(tree_after(steps, k).open),
    decreases k - i,
{
    let outer = tree_after(steps, i).open;
    if i < k {
        assert(depth(steps, i, k) >= 0);
        assert(depth(steps, i, k - 1) >= 0);
        lemma_open(steps, i, k - 1);
        let before = tree_after(steps, k - 1).open;
        let after = tree_after(steps, k).open;
        assert(before.take(outer.len() as int) =~= outer);
        assert(after.take(outer.len() as int) =~= outer);
    } else {
        assert(outer.take(outer.len() as int) =~= outer);
    }
}

/// A node that is entered while another is open, and all that was entered in that one was left
/// again, stands right inside it.
pub proof fn law_nodes_stand_in_what_is_open(steps: Seq<StepView>, a: int, k: int)
    requires
        0 <= a < k < steps.len(),
        steps[a] is Enter,
        steps[k] is Enter,
        forall|j: int| a + 1 <= j <= k ==> #[trigger] depth(steps, a + 1, j) >= 0,
        depth(steps, a + 1, k) == 0,
    ensures
        tree_after(steps, k + 1).nodes.last().parent == tree_after(steps, a).nodes.len(),
{
    lemma_open(steps, a + 1, k);
    let outer = tree_after(steps, a + 1).open;
    let now = tree_after(steps, k).open;
    assert(outer.len() == now.len());
    assert(now.take(outer.len() as int) =~= now);
    assert(outer == now);
    assert(outer.last() == tree_after(steps, a).nodes.len());
}

} // verus!
