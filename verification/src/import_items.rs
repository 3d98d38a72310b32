//! The names that a module imports with `from X import Y`, and those it exports.
use crate::imports::{
    alias_asname, alias_name, module_of, reached, reached_nodes, read_asname, read_module,
    read_name, statement_of,
};
use crate::line_index::{ascending, col_of, line_of, offset_to_line_col, offsets};
use crate::scope::{is_stmt, kind_is_stmt};
use crate::syntax::{views, well_formed, Kind, Node, NodeView};
use crate::text::{eq, strs};
use crate::types::opt;
use vstd::prelude::*;

verus! {

/// One name of a `from X import ...` statement, with what matters of the statement.
pub struct ImportItem {
    pub module: String,
    pub name: String,
    pub asname: Option<String>,
    /// 1-based line of the name.
    pub line: usize,
    /// 1-based line of the `from`.
    pub start_line: usize,
    /// 1-based last line of the statement.
    pub end_line: usize,
    /// 0-based byte column just past the statement.
    pub end_col: usize,
    /// 0-based byte column of the `from`.
    pub col: usize,
    /// Whether the statement stands under `if TYPE_CHECKING:`.
    pub in_type_checking: bool,
    /// Whether the statement stands right in the module.
    pub is_top_level: bool,
    /// The first statement of the body that holds the statement: statements of one body share it.
    pub block: usize,
    /// How many statements that body has.
    pub block_size: usize,
    /// How many names the statement imports.
    pub alias_count: usize,
    /// Whether this is the first of them.
    pub is_first: bool,
    /// The node of the name.
    pub node: usize,
}

/// What an [`ImportItem`] says.
#[verifier::ext_equal]
pub struct ItemView {
    pub module: Seq<char>,
    pub name: Seq<char>,
    pub asname: Option<Seq<char>>,
    pub line: int,
    pub start_line: int,
    pub end_line: int,
    pub end_col: int,
    pub col: int,
    pub in_type_checking: bool,
    pub is_top_level: bool,
    pub block: int,
    pub block_size: int,
    pub alias_count: int,
    pub is_first: bool,
    pub node: int,
}

impl View for ImportItem {
    type V = ItemView;

    open spec fn view(&self) -> ItemView {
        ItemView {
            module: self.module@,
            name: self.name@,
            asname: opt(self.asname),
            line: self.line as int,
            start_line: self.start_line as int,
            end_line: self.end_line as int,
            end_col: self.end_col as int,
            col: self.col as int,
            in_type_checking: self.in_type_checking,
            is_top_level: self.is_top_level,
            block: self.block as int,
            block_size: self.block_size as int,
            alias_count: self.alias_count as int,
            is_first: self.is_first,
            node: self.node as int,
        }
    }
}

/// What several items say.
pub open spec fn item_views(v: Seq<ImportItem>) -> Seq<ItemView> {
    v.map_values(|x: ImportItem| x@)
}

impl ItemView {
    /// The name that the item binds.
    pub open spec fn local(self) -> Seq<char> {
        match self.asname {
            Some(asname) => asname,
            None => self.name,
        }
    }
}

/// How many of the first `n` nodes are aliases right inside the node at `i`.
pub open spec fn alias_count(nodes: Seq<NodeView>, i: int, n: int) -> int
    decreases n,
{
    if n <= 0 {
        0
    } else {
        alias_count(nodes, i, n - 1) + if nodes[n - 1].parent == i && nodes[n - 1].kind
            == Kind::Alias {
            1int
        } else {
            0
        }
    }
}

/// Which of the bodies of the node around it the node at `i` stands in: behind its `finally`,
/// behind its `else`, or before both.
pub open spec fn part_of(nodes: Seq<NodeView>, i: int) -> int {
    let p = nodes[nodes[i].parent];
    if p.finally_start is Some && nodes[i].start >= p.finally_start->0 {
        2
    } else if p.else_start is Some && nodes[i].start >= p.else_start->0 {
        1
    } else {
        0
    }
}

/// Whether the node at `j` is a statement of the body that the node at `i` stands in.
pub open spec fn shares_body(nodes: Seq<NodeView>, j: int, i: int) -> bool {
    nodes[j].parent == nodes[i].parent && is_stmt(nodes[j].kind) && part_of(nodes, j) == part_of(
        nodes,
        i,
    )
}

/// How many of the first `n` nodes are statements of the body that the node at `i` stands in.
pub open spec fn body_size(nodes: Seq<NodeView>, i: int, n: int) -> int
    decreases n,
{
    if n <= 0 {
        0
    } else {
        body_size(nodes, i, n - 1) + if shares_body(nodes, n - 1, i) {
            1int
        } else {
            0
        }
    }
}

/// The first statement from `k` on of the body that the node at `i` stands in, or else `i` itself.
pub open spec fn body_head(nodes: Seq<NodeView>, i: int, k: int) -> int
    decreases i - k,
{
    if k >= i || shares_body(nodes, k, i) {
        k
    } else {
        body_head(nodes, i, k + 1)
    }
}

/// Whether the test of the `if` at `i` is `TYPE_CHECKING`, by itself or as an attribute.
pub open spec fn tests_type_checking(nodes: Seq<NodeView>, i: int) -> bool {
    i + 1 < nodes.len() && nodes[i + 1].parent == i && (nodes[i + 1].kind == Kind::Load
        || nodes[i + 1].kind == Kind::Attribute) && nodes[i + 1].text == "TYPE_CHECKING"@
}

/// Whether a node stands in the body of an `if TYPE_CHECKING:`; its `elif` and `else` clauses do
/// not count.
pub open spec fn under_type_checking(nodes: Seq<NodeView>, i: int) -> bool
    decreases i,
{
    if 0 < i && 0 <= nodes[i].parent < i {
        let p = nodes[i].parent;
        under_type_checking(nodes, p) || (is_stmt(nodes[i].kind) && nodes[p].kind == Kind::If
            && tests_type_checking(nodes, p))
    } else {
        false
    }
}

/// Whether a node is a name of an absolute `from` import that is looked at.
pub open spec fn is_item(nodes: Seq<NodeView>, a: int) -> bool {
    let s = statement_of(nodes, a);
    &&& nodes[a].kind == Kind::Alias
    &&& s.kind == Kind::ImportFrom
    &&& s.level == 0
    &&& module_of(nodes, nodes[a].parent) is Some
    &&& reached(nodes, nodes[a].parent)
}

/// The offset of the last byte before `end`.
pub open spec fn last_before(end: int) -> int {
    if end > 0 {
        end - 1
    } else {
        0
    }
}

/// The item that a name is, in a source whose lines start at `starts`.
pub open spec fn item_of(starts: Seq<int>, nodes: Seq<NodeView>, a: int) -> ItemView {
    let i = nodes[a].parent;
    let n = nodes.len() as int;
    ItemView {
        module: module_of(nodes, i)->0,
        name: alias_name(nodes, a),
        asname: alias_asname(nodes, a),
        line: line_of(starts, nodes[a].start),
        start_line: line_of(starts, nodes[i].start),
        end_line: line_of(starts, last_before(nodes[i].end)),
        end_col: col_of(starts, last_before(nodes[i].end)) + 1,
        col: col_of(starts, nodes[i].start),
        in_type_checking: under_type_checking(nodes, i),
        is_top_level: nodes[i].parent == 0,
        block: body_head(nodes, i, 0),
        block_size: body_size(nodes, i, n),
        alias_count: alias_count(nodes, i, n),
        is_first: alias_count(nodes, i, a) == 0,
        node: a,
    }
}

/// The items among the first `n` nodes, in source order.
pub open spec fn items_to(starts: Seq<int>, nodes: Seq<NodeView>, n: int) -> Seq<ItemView>
    decreases n,
{
    if n <= 0 {
        Seq::empty()
    } else {
        let before = items_to(starts, nodes, n - 1);
        if is_item(nodes, n - 1) {
            before.push(item_of(starts, nodes, n - 1))
        } else {
            before
        }
    }
}

/// The items of a module, in source order.
pub open spec fn import_items(starts: Seq<int>, nodes: Seq<NodeView>) -> Seq<ItemView> {
    items_to(starts, nodes, nodes.len() as int)
}

fn count_aliases(nodes: &Vec<Node>, i: usize, n: usize) -> (r: usize)
    requires
        n <= nodes@.len(),
    ensures
        r == alias_count(views(nodes@), i as int, n as int),
        r <= n,
{
    let ghost all = views(nodes@);
    let mut count: usize = 0;
    let mut k: usize = 0;
    while k < n
        invariant
            k <= n <= nodes@.len(),
            all == views(nodes@),
            count == alias_count(all, i as int, k as int),
            count <= k,
        decreases n - k,
    {
        assert(all[k as int] == nodes@[k as int]@);
        if nodes[k].parent == i && nodes[k].kind == Kind::Alias {
            count += 1;
        }
        k += 1;
    }
    count
}

fn find_part(nodes: &Vec<Node>, i: usize) -> (r: u8)
    requires
        i < nodes@.len(),
        well_formed(views(nodes@)),
    ensures
        r == part_of(views(nodes@), i as int),
{
    let ghost all = views(nodes@);
    assert(all[i as int] == nodes@[i as int]@);
    assert(all[i as int].parent <= i);
    let p: usize = nodes[i].parent;
    assert(all[p as int] == nodes@[p as int]@);
    if let Some(f) = nodes[p].finally_start {
        if nodes[i].start >= f {
            return 2;
        }
    }
    if let Some(e) = nodes[p].else_start {
        if nodes[i].start >= e {
            return 1;
        }
    }
    0
}

fn in_same_body(nodes: &Vec<Node>, j: usize, i: usize) -> (r: bool)
    requires
        i < nodes@.len(),
        j < nodes@.len(),
        well_formed(views(nodes@)),
    ensures
        r == shares_body(views(nodes@), j as int, i as int),
{
    assert(views(nodes@)[i as int] == nodes@[i as int]@);
    assert(views(nodes@)[j as int] == nodes@[j as int]@);
    nodes[j].parent == nodes[i].parent && kind_is_stmt(nodes[j].kind) && find_part(nodes, j)
        == find_part(nodes, i)
}

fn count_body(nodes: &Vec<Node>, i: usize) -> (r: usize)
    requires
        i < nodes@.len(),
        well_formed(views(nodes@)),
    ensures
        r == body_size(views(nodes@), i as int, nodes@.len() as int),
{
    let ghost all = views(nodes@);
    let mut count: usize = 0;
    let mut k: usize = 0;
    while k < nodes.len()
        invariant
            k <= nodes@.len(),
            i < nodes@.len(),
            all == views(nodes@),
            well_formed(all),
            count == body_size(all, i as int, k as int),
            count <= k,
        decreases nodes@.len() - k,
    {
        if in_same_body(nodes, k, i) {
            count += 1;
        }
        k += 1;
    }
    count
}

fn find_head(nodes: &Vec<Node>, i: usize) -> (r: usize)
    requires
        i < nodes@.len(),
        well_formed(views(nodes@)),
    ensures
        r == body_head(views(nodes@), i as int, 0),
{
    let mut k: usize = 0;
    while k < i
        invariant
            k <= i < nodes@.len(),
            well_formed(views(nodes@)),
            body_head(views(nodes@), i as int, 0) == body_head(views(nodes@), i as int, k as int),
        decreases i - k,
    {
        if in_same_body(nodes, k, i) {
            return k;
        }
        k += 1;
    }
    i
}

/// Whether the test of the `if` at `i` is `TYPE_CHECKING`, by itself or as an attribute.
pub fn is_type_checking_guard(nodes: &Vec<Node>, i: usize) -> (r: bool)
    requires
        i < nodes@.len(),
    ensures
        r == tests_type_checking(views(nodes@), i as int),
{
    if nodes.len() - i <= 1 {
        return false;
    }
    assert(views(nodes@)[i + 1] == nodes@[i + 1]@);
    let test = &nodes[i + 1];
    test.parent == i && (test.kind == Kind::Load || test.kind == Kind::Attribute) && eq(
        test.text.as_str(),
        "TYPE_CHECKING",
    )
}

/// For each node, whether it stands under `if TYPE_CHECKING:`.
fn type_checking_nodes(nodes: &Vec<Node>) -> (r: Vec<bool>)
    requires
        well_formed(views(nodes@)),
    ensures
        r@.len() == nodes@.len(),
        forall|i: int|
            0 <= i < r@.len() ==> #[trigger] r@[i] == under_type_checking(views(nodes@), i),
{
    let ghost all = views(nodes@);
    let mut out: Vec<bool> = Vec::new();
    let mut i: usize = 0;
    while i < nodes.len()
        invariant
            i <= nodes@.len(),
            all == views(nodes@),
            well_formed(all),
            out@.len() == i,
            forall|j: int| 0 <= j < i ==> #[trigger] out@[j] == under_type_checking(all, j),
        decreases nodes@.len() - i,
    {
        assert(all[i as int] == nodes@[i as int]@);
        let here = if i > 0 {
            let p: usize = nodes[i].parent;
            assert(all[i as int].parent < i);
            assert(all[p as int] == nodes@[p as int]@);
            out[p] || (kind_is_stmt(nodes[i].kind) && nodes[p].kind == Kind::If
                && is_type_checking_guard(nodes, p))
        } else {
            false
        };
        out.push(here);
        i += 1;
    }
    out
}

/// What is known of where the nodes of a module stand.
pub struct Places {
    visible: Vec<bool>,
    guarded: Vec<bool>,
}

impl Places {
    /// The places are those of `nodes`.
    pub closed spec fn of(self, nodes: Seq<NodeView>) -> bool {
        &&& self.visible@.len() == nodes.len()
        &&& self.guarded@.len() == nodes.len()
        &&& forall|j: int|
            0 <= j < self.visible@.len() ==> #[trigger] self.visible@[j] == reached(nodes, j)
        &&& forall|j: int|
            0 <= j < self.guarded@.len() ==> #[trigger] self.guarded@[j] == under_type_checking(
                nodes,
                j,
            )
    }

    /// Finds where the nodes of a module stand.
    pub fn find(nodes: &Vec<Node>) -> (r: Places)
        requires
            well_formed(views(nodes@)),
        ensures
            r.of(views(nodes@)),
    {
        Places { visible: reached_nodes(nodes), guarded: type_checking_nodes(nodes) }
    }

    /// The item that the node at `a` is, if it is one.
    pub fn read_item(&self, nodes: &Vec<Node>, line_starts: &Vec<u32>, a: usize) -> (r: Option<
        ImportItem,
    >)
        requires
            well_formed(views(nodes@)),
            ascending(offsets(line_starts@)),
            self.of(views(nodes@)),
            a < nodes@.len(),
        ensures
            match r {
                Some(item) => {
                    &&& is_item(views(nodes@), a as int)
                    &&& item@ == item_of(offsets(line_starts@), views(nodes@), a as int)
                },
                None => !is_item(views(nodes@), a as int),
            },
    {
        let ghost all = views(nodes@);
        assert(all[a as int] == nodes@[a as int]@);
        assert(all[a as int].parent <= a);
        let i: usize = nodes[a].parent;
        assert(all[i as int] == nodes@[i as int]@);
        if !(nodes[a].kind == Kind::Alias && nodes[i].kind == Kind::ImportFrom && nodes[i].level
            == 0 && self.visible[i]) {
            return None;
        }
        let module = match read_module(nodes, i) {
            Some(module) => module,
            None => return None,
        };
        let last: u32 = if nodes[i].end > 0 {
            nodes[i].end - 1
        } else {
            0
        };
        let (start_line, col) = offset_to_line_col(line_starts, nodes[i].start);
        let (end_line, last_col) = offset_to_line_col(line_starts, last);
        let (line, _) = offset_to_line_col(line_starts, nodes[a].start);
        Some(
            ImportItem {
                module,
                name: read_name(nodes, a),
                asname: read_asname(nodes, a),
                line,
                start_line,
                end_line,
                end_col: last_col + 1,
                col,
                in_type_checking: self.guarded[i],
                is_top_level: nodes[i].parent == 0,
                block: find_head(nodes, i),
                block_size: count_body(nodes, i),
                alias_count: count_aliases(nodes, i, nodes.len()),
                is_first: count_aliases(nodes, i, a) == 0,
                node: a,
            },
        )
    }
}

/// The names that a module imports with absolute `from X import Y` statements.
pub fn collect_imports(nodes: &Vec<Node>, line_starts: &Vec<u32>) -> (r: Vec<ImportItem>)
    requires
        well_formed(views(nodes@)),
        ascending(offsets(line_starts@)),
    ensures
        item_views(r@) == import_items(offsets(line_starts@), views(nodes@)),
{
    let ghost all = views(nodes@);
    let ghost starts = offsets(line_starts@);
    let places = Places::find(nodes);
    let mut out: Vec<ImportItem> = Vec::new();
    let mut a: usize = 0;
    assert(item_views(out@) =~= Seq::empty());
    while a < nodes.len()
        invariant
            a <= nodes@.len(),
            all == views(nodes@),
            starts == offsets(line_starts@),
            well_formed(all),
            ascending(starts),
            places.of(all),
            item_views(out@) == items_to(starts, all, a as int),
        decreases nodes@.len() - a,
    {
        let ghost before = out@;
        match places.read_item(nodes, line_starts, a) {
            Some(item) => {
                out.push(item);
                assert(item_views(out@) =~= item_views(before).push(item@));
            },
            None => {},
        }
        a += 1;
    }
    out
}

// ---------------------------------------------------------------------------
// Exports
// ---------------------------------------------------------------------------

/// Whether the node at `v` is the last one right inside the node at `s`.
pub open spec fn is_last_in(nodes: Seq<NodeView>, v: int, s: int) -> bool {
    nodes[v].parent == s && forall|j: int| v < j < nodes.len() ==> (#[trigger] nodes[j]).parent != s
}

/// Whether a target of the assignment at `s`, whose value is the node at `v`, is `__all__`.
pub open spec fn assigns_all(nodes: Seq<NodeView>, s: int, v: int) -> bool {
    exists|t: int|
        0 <= t < v && (#[trigger] nodes[t]).parent == s && (nodes[t].kind == Kind::Store
            || nodes[t].kind == Kind::Load) && nodes[t].text == "__all__"@
}

/// Whether the string at `e` is an element of the list or tuple that a statement of the module
/// assigns or adds to `__all__`.
pub open spec fn is_export(nodes: Seq<NodeView>, e: int) -> bool {
    let v = nodes[e].parent;
    let s = nodes[v].parent;
    &&& nodes[e].kind == Kind::Str
    &&& nodes[v].kind == Kind::List || nodes[v].kind == Kind::Tuple
    &&& nodes[s].kind == Kind::Assign || nodes[s].kind == Kind::AugAssign
    &&& nodes[s].parent == 0
    &&& is_last_in(nodes, v, s)
    &&& assigns_all(nodes, s, v)
}

/// Whether the module lists `name` in `__all__`.
pub open spec fn exported(nodes: Seq<NodeView>, name: Seq<char>) -> bool {
    exists|e: int| 0 <= e < nodes.len() && is_export(nodes, e) && (#[trigger] nodes[e]).text == name
}

fn find_last_in(nodes: &Vec<Node>, v: usize, s: usize) -> (r: bool)
    requires
        v < nodes@.len(),
    ensures
        r == is_last_in(views(nodes@), v as int, s as int),
{
    let ghost all = views(nodes@);
    assert(all[v as int] == nodes@[v as int]@);
    if nodes[v].parent != s {
        return false;
    }
    assert(v < nodes.len());
    let mut j: usize = v + 1;
    while j < nodes.len()
        invariant
            v < j <= nodes@.len(),
            all == views(nodes@),
            forall|k: int| v < k < j ==> (#[trigger] all[k]).parent != s,
        decreases nodes@.len() - j,
    {
        assert(all[j as int] == nodes@[j as int]@);
        if nodes[j].parent == s {
            return false;
        }
        j += 1;
    }
    true
}

fn find_assigns_all(nodes: &Vec<Node>, s: usize, v: usize) -> (r: bool)
    requires
        v < nodes@.len(),
    ensures
        r == assigns_all(views(nodes@), s as int, v as int),
{
    let ghost all = views(nodes@);
    let mut t: usize = 0;
    while t < v
        invariant
            t <= v < nodes@.len(),
            all == views(nodes@),
            forall|k: int|
                0 <= k < t ==> !((#[trigger] all[k]).parent == s && (all[k].kind == Kind::Store
                    || all[k].kind == Kind::Load) && all[k].text == "__all__"@),
        decreases v - t,
    {
        assert(all[t as int] == nodes@[t as int]@);
        if nodes[t].parent == s && (nodes[t].kind == Kind::Store || nodes[t].kind == Kind::Load)
            && eq(nodes[t].text.as_str(), "__all__") {
            return true;
        }
        t += 1;
    }
    false
}

/// Every name that the module lists in `__all__`, repeats included.
pub fn collect_all_exports(nodes: &Vec<Node>) -> (r: Vec<String>)
    requires
        well_formed(views(nodes@)),
    ensures
        forall|name: Seq<char>|
            #![trigger strs(r@).contains(name)]
            strs(r@).contains(name) <==> exported(views(nodes@), name),
{
    let ghost all = views(nodes@);
    let mut out: Vec<String> = Vec::new();
    let mut e: usize = 0;
    assert(strs(out@) =~= Seq::empty());
    while e < nodes.len()
        invariant
            e <= nodes@.len(),
            all == views(nodes@),
            well_formed(all),
            forall|name: Seq<char>|
                #![trigger strs(out@).contains(name)]
                strs(out@).contains(name) <==> exists|j: int|
                    0 <= j < e && is_export(all, j) && (#[trigger] all[j]).text == name,
        decreases nodes@.len() - e,
    {
        assert(all[e as int] == nodes@[e as int]@);
        assert(all[e as int].parent <= e);
        let v: usize = nodes[e].parent;
        assert(all[v as int] == nodes@[v as int]@);
        assert(all[v as int].parent <= v);
        let s: usize = nodes[v].parent;
        assert(all[s as int] == nodes@[s as int]@);
        let found = nodes[e].kind == Kind::Str && (nodes[v].kind == Kind::List || nodes[v].kind
            == Kind::Tuple) && (nodes[s].kind == Kind::Assign || nodes[s].kind == Kind::AugAssign)
            && nodes[s].parent == 0 && find_last_in(nodes, v, s) && find_assigns_all(nodes, s, v);
        let ghost before = strs(out@);
        if found {
            out.push(nodes[e].text.clone());
            assert(strs(out@) =~= before.push(all[e as int].text));
        }
        proof {
            assert(found == is_export(all, e as int));
            crate::scope::lemma_grow(before, strs(out@), all[e as int].text, found);
            assert forall|name: Seq<char>| #![trigger strs(out@).contains(name)]
                strs(out@).contains(name) <==> exists|j: int|
                    0 <= j < e + 1 && is_export(all, j) && (#[trigger] all[j]).text == name by {
                assert(before.contains(name) <==> exists|j: int|
                    0 <= j < e && is_export(all, j) && (#[trigger] all[j]).text == name);
                if exists|j: int|
                    0 <= j < e + 1 && is_export(all, j) && (#[trigger] all[j]).text == name {
                    let j = choose|j: int|
                        0 <= j < e + 1 && is_export(all, j) && (#[trigger] all[j]).text == name;
                    if j < e {
                        assert(before.contains(name));
                    }
                }
            }
        }
        e += 1;
    }
    out
}

} // verus!
