//! Whether an imported name is a module: looked up in the directories of Python's search path,
//! without running any Python.
use crate::imports::{
    alias_name, local_name, module_of, read_asname, read_module, read_name, statement_of,
};
use crate::memo::{held, no_answers, recall, remember};
use crate::module_facts::ModuleCheck;
use crate::ordered::has_text;
use crate::paths::{extension, extension_of, join_path, joined};
use crate::split::{head, head_spec};
use crate::syntax::{module_nodes, parse_module_stmts, views, well_formed, Kind, Node, NodeView};
use crate::text::{chars, eq, str_starts_with, strs};
use crate::types::opt;
use dashmap::DashMap;
use vstd::prelude::*;
use vstd::string::*;

verus! {

// ---------------------------------------------------------------------------
// What is known of directories
// ---------------------------------------------------------------------------

/// What stands in a directory.
pub struct Listing {
    pub path: String,
    /// The names of the directories in it.
    pub dirs: Vec<String>,
    /// The names of all that is in it.
    pub names: Vec<String>,
}

/// What a [`Listing`] says.
#[verifier::ext_equal]
pub struct ListingView {
    pub path: Seq<char>,
    pub dirs: Seq<Seq<char>>,
    pub names: Seq<Seq<char>>,
}

impl View for Listing {
    type V = ListingView;

    open spec fn view(&self) -> ListingView {
        ListingView { path: self.path@, dirs: strs(self.dirs@), names: strs(self.names@) }
    }
}

/// What the `__init__.py` of a directory binds to a name of another module.
pub struct Reexport {
    pub dir: String,
    pub local: String,
    pub module: String,
    pub name: String,
}

/// What a [`Reexport`] says.
#[verifier::ext_equal]
pub struct ReexportView {
    pub dir: Seq<char>,
    pub local: Seq<char>,
    pub module: Seq<char>,
    pub name: Seq<char>,
}

impl View for Reexport {
    type V = ReexportView;

    open spec fn view(&self) -> ReexportView {
        ReexportView {
            dir: self.dir@,
            local: self.local@,
            module: self.module@,
            name: self.name@,
        }
    }
}

/// The search path, and what is known of the directories on it.
pub struct ModuleProbe {
    /// The directories to search, in order.
    sys_path: Vec<String>,
    listings: Vec<Listing>,
    reexports: Vec<Reexport>,
    /// What was found out of a module and a name in it.
    cache: DashMap<Vec<String>, bool>,
    /// What was found out of an outermost package.
    root_cache: DashMap<Vec<String>, bool>,
}

/// What a [`ModuleProbe`] knows.
#[verifier::ext_equal]
pub struct ProbeView {
    pub sys_path: Seq<Seq<char>>,
    pub listings: Seq<ListingView>,
    pub reexports: Seq<ReexportView>,
}

impl View for ModuleProbe {
    type V = ProbeView;

    closed spec fn view(&self) -> ProbeView {
        ProbeView {
            sys_path: strs(self.sys_path@),
            listings: self.listings@.map_values(|l: Listing| l@),
            reexports: self.reexports@.map_values(|e: Reexport| e@),
        }
    }
}

// ---------------------------------------------------------------------------
// The meaning of a lookup
// ---------------------------------------------------------------------------

/// A dotted module as a path.
pub open spec fn slashed(module: Seq<char>) -> Seq<char> {
    module.map_values(|c: char| if c == '.' { '/' } else { c })
}

/// Whether a file is an extension module by the end of its name.
pub open spec fn is_extension(name: Seq<char>) -> bool {
    let e = extension_of(name);
    e == Some("so"@) || e == Some("pyd"@) || e == Some("dylib"@)
}

impl ListingView {
    /// Whether a directory, a Python file or an extension module of the given name stands there.
    pub open spec fn shows(self, name: Seq<char>) -> bool {
        ||| self.dirs.contains(name)
        ||| self.names.contains(name + ".py"@)
        ||| exists|j: int|
            0 <= j < self.names.len() && (name + "."@).is_prefix_of(#[trigger] self.names[j])
                && is_extension(self.names[j])
    }
}

/// The first listing of a directory.
pub open spec fn listing_at(listings: Seq<ListingView>, dir: Seq<char>) -> Option<ListingView>
    decreases listings.len(),
{
    if listings.len() == 0 {
        None
    } else {
        match listing_at(listings.drop_last(), dir) {
            Some(l) => Some(l),
            None => if listings.last().path == dir {
                Some(listings.last())
            } else {
                None
            },
        }
    }
}

impl ProbeView {
    /// The directory of a module below the entry `b` of the search path.
    pub open spec fn dir_of(self, b: int, module: Seq<char>) -> Seq<char> {
        joined(self.sys_path[b], slashed(module))
    }

    /// Whether a directory was listed.
    pub open spec fn listed(self, dir: Seq<char>) -> bool {
        listing_at(self.listings, dir) is Some
    }

    /// Whether a directory is known to hold a module of the given name.
    pub open spec fn holds(self, dir: Seq<char>, name: Seq<char>) -> bool {
        listing_at(self.listings, dir) is Some && listing_at(self.listings, dir)->0.shows(name)
    }

    /// Whether a module stands where its name says.
    pub open spec fn direct(self, module: Seq<char>, name: Seq<char>) -> bool {
        exists|b: int|
            0 <= b < self.sys_path.len() && self.holds(#[trigger] self.dir_of(b, module), name)
    }

    /// Whether all directories of a module were listed.
    pub open spec fn surveyed(self, module: Seq<char>) -> bool {
        forall|b: int| 0 <= b < self.sys_path.len() ==> self.listed(#[trigger] self.dir_of(b, module))
    }

    /// Whether a re-export binds `name` in `module`.
    pub open spec fn applies(self, e: ReexportView, module: Seq<char>, name: Seq<char>) -> bool {
        e.local == name && exists|b: int|
            0 <= b < self.sys_path.len() && #[trigger] self.dir_of(b, module) == e.dir
    }

    /// The module and the name that the first `k` re-exports of a chain lead to.
    pub open spec fn end_of(
        self,
        module: Seq<char>,
        name: Seq<char>,
        chain: Seq<int>,
        k: int,
    ) -> (Seq<char>, Seq<char>) {
        if k <= 0 {
            (module, name)
        } else {
            (self.reexports[chain[k - 1]].module, self.reexports[chain[k - 1]].name)
        }
    }

    /// Whether each re-export of a chain binds what the one before leads to.
    pub open spec fn is_chain(self, module: Seq<char>, name: Seq<char>, chain: Seq<int>) -> bool {
        forall|k: int|
            0 <= k < chain.len() ==> 0 <= #[trigger] chain[k] < self.reexports.len()
                && self.applies(
                self.reexports[chain[k]],
                self.end_of(module, name, chain, k).0,
                self.end_of(module, name, chain, k).1,
            )
    }

    /// Whether re-exports lead from one name to another.
    pub open spec fn leads(
        self,
        module: Seq<char>,
        name: Seq<char>,
        end: (Seq<char>, Seq<char>),
    ) -> bool {
        exists|chain: Seq<int>|
            self.is_chain(module, name, chain) && #[trigger] self.end_of(
                module,
                name,
                chain,
                chain.len() as int,
            ) == end
    }

    /// Whether `name` in `module` is a module: it stands where the name says, or re-exports lead
    /// to one that does.
    pub open spec fn is_module(self, module: Seq<char>, name: Seq<char>) -> bool {
        exists|end: (Seq<char>, Seq<char>)|
            #[trigger] self.leads(module, name, end) && self.direct(end.0, end.1)
    }

    /// Whether all directories were listed that the answer rests on.
    pub open spec fn settled(self, module: Seq<char>, name: Seq<char>) -> bool {
        forall|end: (Seq<char>, Seq<char>)| #[trigger]
            self.leads(module, name, end) ==> self.surveyed(end.0)
    }

    /// Whether a module of the given name is found on the search path.
    pub open spec fn root_found(self, root: Seq<char>) -> bool {
        exists|b: int|
            0 <= b < self.sys_path.len() && self.holds(#[trigger] self.sys_path[b], root)
    }

    /// Whether the outermost package of a module is found on the search path.
    pub open spec fn root_exists(self, module: Seq<char>) -> bool {
        self.root_found(head_spec(module, '.'))
    }

    /// What is known of `name` in `module`.
    pub open spec fn verdict(self, module: Seq<char>, name: Seq<char>) -> ModuleCheck {
        if self.is_module(module, name) {
            ModuleCheck::Module
        } else if self.root_exists(module) {
            ModuleCheck::NotModule
        } else {
            ModuleCheck::Unknown
        }
    }

    /// Whether a directory is needed to say whether `name` in `module` is a module.
    pub open spec fn needs(self, module: Seq<char>, name: Seq<char>, dir: Seq<char>) -> bool {
        !self.listed(dir) && exists|end: (Seq<char>, Seq<char>), b: int|
            #[trigger] self.leads(module, name, end) && 0 <= b < self.sys_path.len()
                && #[trigger] self.dir_of(b, end.0) == dir
    }

    /// Whether all directories of the search path were listed.
    pub open spec fn roots_surveyed(self) -> bool {
        forall|b: int| 0 <= b < self.sys_path.len() ==> self.listed(#[trigger] self.sys_path[b])
    }

    /// Whether an answer is right and stays so, whatever else is listed.
    pub open spec fn is_final(self, module: Seq<char>, name: Seq<char>, answer: bool) -> bool {
        answer == self.is_module(module, name) && (!answer ==> self.settled(module, name))
    }

    /// Whether it is right that an outermost package exists or not, whatever else is listed.
    pub open spec fn is_final_root(self, root: Seq<char>, answer: bool) -> bool {
        answer == self.root_found(root) && (!answer ==> self.roots_surveyed())
    }

    /// Whether a directory is needed to say whether the outermost package exists.
    pub open spec fn needs_root(self, dir: Seq<char>) -> bool {
        !self.listed(dir) && exists|b: int|
            0 <= b < self.sys_path.len() && #[trigger] self.sys_path[b] == dir
    }
}

impl ModuleProbe {
    /// Whether every answer that is kept was found out for good.
    pub closed spec fn wf(&self) -> bool {
        &&& forall|k: Seq<Seq<char>>| #[trigger]
            held(self.cache).contains_key(k) ==> self@.is_final(k[0], k[1], held(self.cache)[k])
        &&& forall|k: Seq<Seq<char>>| #[trigger]
            held(self.root_cache).contains_key(k) ==> self@.is_final_root(
                k[0],
                held(self.root_cache)[k],
            )
    }
}

// ---------------------------------------------------------------------------
// Reading `__init__.py`
// ---------------------------------------------------------------------------

/// Whether a node is a name of an absolute `from` import right in the module.
pub open spec fn is_reexport(nodes: Seq<NodeView>, a: int) -> bool {
    let s = statement_of(nodes, a);
    &&& nodes[a].kind == Kind::Alias
    &&& s.kind == Kind::ImportFrom
    &&& s.parent == 0
    &&& s.level == 0
    &&& module_of(nodes, nodes[a].parent) is Some
}

/// The re-exports among the first `n` nodes of the `__init__.py` of `dir`.
pub open spec fn reexports_to(dir: Seq<char>, nodes: Seq<NodeView>, n: int) -> Seq<ReexportView>
    decreases n,
{
    if n <= 0 {
        Seq::empty()
    } else {
        let before = reexports_to(dir, nodes, n - 1);
        if is_reexport(nodes, n - 1) {
            before.push(
                ReexportView {
                    dir,
                    local: local_name(nodes, n - 1),
                    module: module_of(nodes, nodes[n - 1].parent)->0,
                    name: alias_name(nodes, n - 1),
                },
            )
        } else {
            before
        }
    }
}

/// The re-exports of the `__init__.py` of `dir`, if there is one.
pub open spec fn reexports_of(dir: Seq<char>, init: Option<Seq<char>>) -> Seq<ReexportView> {
    match init {
        Some(source) => reexports_to(
            dir,
            module_nodes(source),
            module_nodes(source).len() as int,
        ),
        None => Seq::empty(),
    }
}

/// The re-export that a node is.
fn read_reexport(dir: &str, nodes: &Vec<Node>, a: usize) -> (r: Option<Reexport>)
    requires
        a < nodes@.len(),
        well_formed(views(nodes@)),
    ensures
        match r {
            Some(e) => is_reexport(views(nodes@), a as int) && e@ == (ReexportView {
                dir: dir@,
                local: local_name(views(nodes@), a as int),
                module: module_of(views(nodes@), views(nodes@)[a as int].parent)->0,
                name: alias_name(views(nodes@), a as int),
            }),
            None => !is_reexport(views(nodes@), a as int),
        },
{
    let ghost all = views(nodes@);
    assert(all[a as int] == nodes@[a as int]@);
    if nodes[a].kind != Kind::Alias {
        return None;
    }
    let s: usize = nodes[a].parent;
    assert(s < nodes@.len());
    assert(all[s as int] == nodes@[s as int]@);
    if nodes[s].kind != Kind::ImportFrom || nodes[s].parent != 0 || nodes[s].level != 0 {
        return None;
    }
    let module = match read_module(nodes, s) {
        Some(module) => module,
        None => return None,
    };
    let name = read_name(nodes, a);
    let local = match read_asname(nodes, a) {
        Some(asname) => asname,
        None => name.clone(),
    };
    Some(Reexport { dir: dir.to_owned(), local, module, name })
}

/// The re-exports of the source of the `__init__.py` of `dir`.
pub fn read_reexports(dir: &str, source: &str) -> (r: Vec<Reexport>)
    ensures
        r@.map_values(|e: Reexport| e@) == reexports_of(dir@, Some(source@)),
{
    let nodes = parse_module_stmts(source);
    let mut out: Vec<Reexport> = Vec::new();
    let mut i: usize = 0;
    assert(out@.map_values(|e: Reexport| e@) =~= Seq::empty());
    while i < nodes.len()
        invariant
            i <= nodes@.len(),
            well_formed(views(nodes@)),
            out@.map_values(|e: Reexport| e@) == reexports_to(dir@, views(nodes@), i as int),
        decreases nodes@.len() - i,
    {
        match read_reexport(dir, &nodes, i) {
            Some(e) => {
                let ghost before = out@;
                out.push(e);
                assert(out@.map_values(|e: Reexport| e@) =~= before.map_values(
                    |e: Reexport| e@,
                ).push(e@));
            },
            None => {},
        }
        i += 1;
    }
    out
}

// ---------------------------------------------------------------------------
// Looking up
// ---------------------------------------------------------------------------

/// A dotted module as a path.
fn to_path(module: &str) -> (r: String)
    ensures
        r@ == slashed(module@),
{
    let text = chars(module);
    let mut out = String::new();
    let mut i: usize = 0;
    assert(out@ =~= slashed(module@).take(0));
    while i < text.len()
        invariant
            i <= text@.len(),
            text@ == module@,
            out@ == slashed(module@).take(i as int),
        decreases text@.len() - i,
    {
        assert(slashed(module@)[i as int] == if text@[i as int] == '.' {
            '/'
        } else {
            text@[i as int]
        });
        if text[i] == '.' {
            out.push('/');
        } else {
            out.push(text[i]);
        }
        assert(out@ =~= slashed(module@).take(i + 1));
        i += 1;
    }
    assert(slashed(module@).take(slashed(module@).len() as int) =~= slashed(module@));
    out
}

/// Whether a file is an extension module by the end of its name.
fn extension_module(name: &str) -> (r: bool)
    ensures
        r == is_extension(name@),
{
    match extension(name) {
        Some(e) => eq(e.as_str(), "so") || eq(e.as_str(), "pyd") || eq(e.as_str(), "dylib"),
        None => false,
    }
}

impl Listing {
    /// Whether a directory, a Python file or an extension module of the given name stands there.
    fn has_module(&self, name: &str) -> (r: bool)
        ensures
            r == self@.shows(name@),
    {
        if has_text(&self.dirs, name) {
            return true;
        }
        let mut file = name.to_owned();
        file.append(".py");
        if has_text(&self.names, file.as_str()) {
            return true;
        }
        let mut start = name.to_owned();
        start.append(".");
        let mut i: usize = 0;
        while i < self.names.len()
            invariant
                i <= self.names@.len(),
                start@ == name@ + "."@,
                forall|j: int|
                    0 <= j < i ==> !(start@.is_prefix_of(#[trigger] strs(self.names@)[j])
                        && is_extension(strs(self.names@)[j])),
            decreases self.names@.len() - i,
        {
            assert(strs(self.names@)[i as int] == self.names@[i as int]@);
            if str_starts_with(self.names[i].as_str(), start.as_str()) && extension_module(
                self.names[i].as_str(),
            ) {
                return true;
            }
            i += 1;
        }
        false
    }
}

impl ModuleProbe {
    /// A probe of the given search path that has seen no directory yet.
    pub fn new(sys_path: Vec<String>) -> (r: ModuleProbe)
        ensures
            r.wf(),
            r@ == (ProbeView {
                sys_path: strs(sys_path@),
                listings: Seq::empty(),
                reexports: Seq::empty(),
            }),
    {
        let r = ModuleProbe {
            sys_path,
            listings: Vec::new(),
            reexports: Vec::new(),
            cache: no_answers(),
            root_cache: no_answers(),
        };
        assert(r@.listings =~= Seq::empty());
        assert(r@.reexports =~= Seq::empty());
        r
    }

    /// The listing of a directory.
    fn find_listing(&self, dir: &str) -> (r: Option<&Listing>)
        ensures
            match r {
                Some(l) => listing_at(self@.listings, dir@) == Some(l@),
                None => listing_at(self@.listings, dir@) is None,
            },
    {
        let ghost all = self@.listings;
        let mut i: usize = 0;
        assert(all.take(0) =~= Seq::empty());
        while i < self.listings.len()
            invariant
                i <= self.listings@.len(),
                all == self@.listings,
                listing_at(all.take(i as int), dir@) is None,
            decreases self.listings@.len() - i,
        {
            assert(all.take(i + 1).drop_last() =~= all.take(i as int));
            assert(all.take(i + 1).last() == self.listings@[i as int]@);
            if eq(self.listings[i].path.as_str(), dir) {
                proof {
                    lemma_first_listing(all, dir@, i + 1);
                }
                return Some(&self.listings[i]);
            }
            i += 1;
        }
        assert(all.take(all.len() as int) =~= all);
        None
    }

    /// Adds what stands in a directory; what is known of a directory is kept.
    pub fn add_listing(
        &mut self,
        path: &str,
        dirs: Vec<String>,
        names: Vec<String>,
        init: Option<String>,
    )
        requires
            old(self).wf(),
        ensures
            final(self).wf(),
            final(self)@ == if old(self)@.listed(path@) {
                old(self)@
            } else {
                old(self)@.with(
                    (ListingView { path: path@, dirs: strs(dirs@), names: strs(names@) }),
                    opt(init),
                )
            },
    {
        if self.find_listing(path).is_some() {
            return;
        }
        let ghost before = self@;
        let mut more = match &init {
            Some(source) => read_reexports(path, source.as_str()),
            None => {
                let none: Vec<Reexport> = Vec::new();
                assert(none@.map_values(|e: Reexport| e@) =~= Seq::empty());
                none
            },
        };
        let ghost added = more@;
        let ghost old_reexports = self.reexports@;
        let ghost old_listings = self.listings@;
        let listing = Listing { path: path.to_owned(), dirs, names };
        self.reexports.append(&mut more);
        self.listings.push(listing);
        assert(self@.reexports =~= before.reexports + added.map_values(|e: Reexport| e@));
        assert(self@.listings =~= before.listings.push(listing@));
        assert(self@.sys_path == before.sys_path);
        proof {
            let l = listing@;
            assert forall|k: Seq<Seq<char>>| #[trigger] held(self.cache).contains_key(k) implies
                self@.is_final(k[0], k[1], held(self.cache)[k]) by {
                assert(before.is_final(k[0], k[1], held(self.cache)[k]));
                if held(self.cache)[k] {
                    law_modules_stay_modules(before, l, opt(init), k[0], k[1]);
                } else {
                    law_settled_answers_stay(before, l, opt(init), k[0], k[1]);
                }
            }
            assert forall|k: Seq<Seq<char>>| #[trigger]
                held(self.root_cache).contains_key(k) implies self@.is_final_root(
                k[0],
                held(self.root_cache)[k],
            ) by {
                assert(before.is_final_root(k[0], held(self.root_cache)[k]));
                law_known_roots_stay(before, l, opt(init), k[0], held(self.root_cache)[k]);
            }
        }
    }

    /// Looks for a module where its name says; an error is a directory that must be listed first.
    fn look(&self, module: &str, name: &str) -> (r: Result<bool, String>)
        ensures
            match r {
                Ok(true) => self@.direct(module@, name@),
                Ok(false) => !self@.direct(module@, name@) && self@.surveyed(module@),
                Err(dir) => !self@.listed(dir@) && exists|b: int|
                    0 <= b < self@.sys_path.len() && #[trigger] self@.dir_of(b, module@) == dir@,
            },
    {
        let tail = to_path(module);
        let mut b: usize = 0;
        while b < self.sys_path.len()
            invariant
                b <= self.sys_path@.len(),
                tail@ == slashed(module@),
                forall|c: int|
                    0 <= c < b ==> self@.listed(#[trigger] self@.dir_of(c, module@))
                        && !self@.holds(self@.dir_of(c, module@), name@),
            decreases self.sys_path@.len() - b,
        {
            assert(self@.sys_path[b as int] == self.sys_path@[b as int]@);
            let dir = join_path(self.sys_path[b].as_str(), tail.as_str());
            assert(dir@ == self@.dir_of(b as int, module@));
            match self.find_listing(dir.as_str()) {
                Some(l) => {
                    if l.has_module(name) {
                        return Ok(true);
                    }
                },
                None => return Err(dir),
            }
            b += 1;
        }
        Ok(false)
    }

    /// Whether a re-export binds `name` in `module`.
    fn binds(&self, e: &Reexport, module: &str, name: &str) -> (r: bool)
        ensures
            r == self@.applies(e@, module@, name@),
    {
        if !eq(e.local.as_str(), name) {
            return false;
        }
        let tail = to_path(module);
        let mut b: usize = 0;
        while b < self.sys_path.len()
            invariant
                b <= self.sys_path@.len(),
                tail@ == slashed(module@),
                e.local@ == name@,
                forall|c: int| 0 <= c < b ==> #[trigger] self@.dir_of(c, module@) != e.dir@,
            decreases self.sys_path@.len() - b,
        {
            assert(self@.sys_path[b as int] == self.sys_path@[b as int]@);
            let dir = join_path(self.sys_path[b].as_str(), tail.as_str());
            assert(dir@ == self@.dir_of(b as int, module@));
            if eq(dir.as_str(), e.dir.as_str()) {
                return true;
            }
            b += 1;
        }
        false
    }

    /// Whether a re-export continues from where the search is: the name itself, or what a
    /// re-export leads to that was already followed.
    pub open spec fn open_at(
        self,
        seen: Seq<bool>,
        module: Seq<char>,
        name: Seq<char>,
        i: int,
    ) -> bool {
        let e = self@.reexports[i];
        self@.applies(e, module, name) || exists|j: int|
            0 <= j < seen.len() && seen[j] && self@.applies(
                e,
                (#[trigger] self@.reexports[j]).module,
                self@.reexports[j].name,
            )
    }

    fn is_open_at(&self, seen: &Vec<bool>, module: &str, name: &str, i: usize) -> (r: bool)
        requires
            i < self.reexports@.len(),
            seen@.len() == self.reexports@.len(),
        ensures
            r == self.open_at(seen@, module@, name@, i as int),
    {
        assert(self@.reexports[i as int] == self.reexports@[i as int]@);
        if self.binds(&self.reexports[i], module, name) {
            return true;
        }
        let mut j: usize = 0;
        while j < seen.len()
            invariant
                j <= seen@.len(),
                seen@.len() == self.reexports@.len(),
                i < self.reexports@.len(),
                self@.reexports[i as int] == self.reexports@[i as int]@,
                forall|c: int|
                    0 <= c < j && seen@[c] ==> !self@.applies(
                        self@.reexports[i as int],
                        (#[trigger] self@.reexports[c]).module,
                        self@.reexports[c].name,
                    ),
            decreases seen@.len() - j,
        {
            assert(self@.reexports[j as int] == self.reexports@[j as int]@);
            if seen[j] && self.binds(
                &self.reexports[i],
                self.reexports[j].module.as_str(),
                self.reexports[j].name.as_str(),
            ) {
                return true;
            }
            j += 1;
        }
        false
    }

    /// The next re-export to follow.
    fn next_open(&self, seen: &Vec<bool>, module: &str, name: &str) -> (r: Option<usize>)
        requires
            seen@.len() == self.reexports@.len(),
        ensures
            match r {
                Some(i) => i < seen@.len() && !seen@[i as int] && self.open_at(
                    seen@,
                    module@,
                    name@,
                    i as int,
                ),
                None => forall|i: int|
                    0 <= i < seen@.len() && #[trigger] self.open_at(seen@, module@, name@, i)
                        ==> seen@[i],
            },
    {
        let mut i: usize = 0;
        while i < seen.len()
            invariant
                i <= seen@.len(),
                seen@.len() == self.reexports@.len(),
                forall|c: int|
                    0 <= c < i && #[trigger] self.open_at(seen@, module@, name@, c) ==> seen@[c],
            decreases seen@.len() - i,
        {
            if !seen[i] && self.is_open_at(seen, module, name, i) {
                return Some(i);
            }
            i += 1;
        }
        None
    }

    /// Finds out whether `name` in `module` is a module. An error is a directory that must be
    /// listed before this can be said.
    fn find_out(&self, module: &str, name: &str) -> (r: Result<bool, String>)
        ensures
            match r {
                Ok(b) => self@.is_final(module@, name@, b),
                Err(dir) => self@.needs(module@, name@, dir@),
            },
    {
        let ghost p = self@;
        proof {
            lemma_start(p, module@, name@);
        }
        match self.look(module, name) {
            Ok(found) => {
                if found {
                    return Ok(true);
                }
            },
            Err(dir) => {
                proof {
                    lemma_needed(p, module@, name@, module@, name@, dir@);
                }
                return Err(dir);
            },
        }
        let mut seen: Vec<bool> = Vec::new();
        while seen.len() < self.reexports.len()
            invariant
                seen@.len() <= self.reexports@.len(),
                forall|j: int| 0 <= j < seen@.len() ==> !seen@[j],
            decreases self.reexports@.len() - seen@.len(),
        {
            seen.push(false);
        }
        loop
            invariant
                p == self@,
                seen@.len() == self.reexports@.len(),
                p.reexports.len() == seen@.len(),
                !p.direct(module@, name@),
                p.surveyed(module@),
                p.leads(module@, name@, (module@, name@)),
                forall|j: int|
                    0 <= j < seen@.len() && seen@[j] ==> p.leads(
                        module@,
                        name@,
                        ((#[trigger] p.reexports[j]).module, p.reexports[j].name),
                    ) && !p.direct(p.reexports[j].module, p.reexports[j].name) && p.surveyed(
                        p.reexports[j].module,
                    ),
            decreases unseen(seen@),
        {
            let i: usize = match self.next_open(&seen, module, name) {
                Some(i) => i,
                None => {
                    proof {
                        lemma_closed(self, seen@, module@, name@);
                    }
                    return Ok(false);
                },
            };
            assert(p.reexports[i as int] == self.reexports@[i as int]@);
            proof {
                lemma_step(self, seen@, module@, name@, i as int);
            }
            match self.look(self.reexports[i].module.as_str(), self.reexports[i].name.as_str()) {
                Ok(found) => {
                    if found {
                        return Ok(true);
                    }
                },
                Err(dir) => {
                    proof {
                        let e = p.reexports[i as int];
                        lemma_needed(p, module@, name@, e.module, e.name, dir@);
                    }
                    return Err(dir);
                },
            }
            proof {
                lemma_mark(seen@, i as int);
            }
            seen.set(i, true);
        }
    }

    /// Whether `name` in `module` is a module. An error is a directory that must be listed before
    /// this can be said. What was found out is kept, and not looked for again.
    pub fn is_module(&mut self, module: &str, name: &str) -> (r: Result<bool, String>)
        requires
            old(self).wf(),
        ensures
            final(self).wf(),
            final(self)@ == old(self)@,
            match r {
                Ok(b) => b == old(self)@.is_module(module@, name@) && (!b ==> old(self)@.settled(
                    module@,
                    name@,
                )),
                Err(dir) => old(self)@.needs(module@, name@, dir@),
            },
    {
        let mut key: Vec<String> = Vec::new();
        key.push(module.to_owned());
        key.push(name.to_owned());
        assert(strs(key@)[0] == module@ && strs(key@)[1] == name@);
        if let Some(answer) = recall(&self.cache, &key) {
            return Ok(answer);
        }
        let answer = self.find_out(module, name)?;
        remember(&mut self.cache, key, answer);
        assert(self@ == old(self)@);
        Ok(answer)
    }

    /// Finds out whether a module of the given name is on the search path. An error is a directory
    /// that must be listed before this can be said.
    fn find_root(&self, root: &str) -> (r: Result<bool, String>)
        ensures
            match r {
                Ok(b) => self@.is_final_root(root@, b),
                Err(dir) => self@.needs_root(dir@),
            },
    {
        let mut b: usize = 0;
        while b < self.sys_path.len()
            invariant
                b <= self.sys_path@.len(),
                forall|c: int|
                    0 <= c < b ==> self@.listed(#[trigger] self@.sys_path[c]) && !self@.holds(
                        self@.sys_path[c],
                        root@,
                    ),
            decreases self.sys_path@.len() - b,
        {
            assert(self@.sys_path[b as int] == self.sys_path@[b as int]@);
            match self.find_listing(self.sys_path[b].as_str()) {
                Some(l) => {
                    if l.has_module(root) {
                        return Ok(true);
                    }
                },
                None => return Err(self.sys_path[b].clone()),
            }
            b += 1;
        }
        Ok(false)
    }

    /// Whether the outermost package of a module is found on the search path. An error is a
    /// directory that must be listed before this can be said. What was found out is kept.
    pub fn root_package_exists(&mut self, module: &str) -> (r: Result<bool, String>)
        requires
            old(self).wf(),
        ensures
            final(self).wf(),
            final(self)@ == old(self)@,
            match r {
                Ok(b) => b == old(self)@.root_exists(module@) && (!b ==> old(
                    self,
                )@.roots_surveyed()),
                Err(dir) => old(self)@.needs_root(dir@),
            },
    {
        let root = head(module, '.');
        let mut key: Vec<String> = Vec::new();
        key.push(root.clone());
        assert(strs(key@)[0] == root@);
        if let Some(answer) = recall(&self.root_cache, &key) {
            return Ok(answer);
        }
        let answer = self.find_root(root.as_str())?;
        remember(&mut self.root_cache, key, answer);
        assert(self@ == old(self)@);
        Ok(answer)
    }

    /// What is known of `name` in `module`. An error is a directory that must be listed before
    /// this can be said.
    pub fn check(&mut self, module: &str, name: &str) -> (r: Result<ModuleCheck, String>)
        requires
            old(self).wf(),
        ensures
            final(self).wf(),
            final(self)@ == old(self)@,
            match r {
                Ok(c) => c == old(self)@.verdict(module@, name@) && (c != ModuleCheck::Module
                    ==> old(self)@.settled(module@, name@)),
                Err(dir) => old(self)@.needs(module@, name@, dir@) || old(self)@.needs_root(dir@),
            },
    {
        match self.is_module(module, name) {
            Ok(true) => return Ok(ModuleCheck::Module),
            Ok(false) => {},
            Err(dir) => return Err(dir),
        }
        match self.root_package_exists(module) {
            Ok(true) => Ok(ModuleCheck::NotModule),
            Ok(false) => Ok(ModuleCheck::Unknown),
            Err(dir) => Err(dir),
        }
    }
}

impl ProbeView {
    /// What is known once a directory was listed.
    pub open spec fn with(self, listing: ListingView, init: Option<Seq<char>>) -> ProbeView {
        ProbeView {
            sys_path: self.sys_path,
            listings: self.listings.push(listing),
            reexports: self.reexports + reexports_of(listing.path, init),
        }
    }
}

/// How many re-exports were not followed yet.
pub open spec fn unseen(seen: Seq<bool>) -> nat
    decreases seen.len(),
{
    if seen.len() == 0 {
        0
    } else {
        unseen(seen.drop_last()) + if seen.last() {
            0nat
        } else {
            1nat
        }
    }
}

proof fn lemma_mark(seen: Seq<bool>, i: int)
    requires
        0 <= i < seen.len(),
        !seen[i],
    ensures
        unseen(seen.update(i, true)) < unseen(seen),
    decreases seen.len(),
{
    let marked = seen.update(i, true);
    if i == seen.len() - 1 {
        assert(marked.drop_last() =~= seen.drop_last());
    } else {
        assert(marked.drop_last() =~= seen.drop_last().update(i, true));
        lemma_mark(seen.drop_last(), i);
    }
}

proof fn lemma_first_listing(all: Seq<ListingView>, dir: Seq<char>, n: int)
    requires
        0 <= n <= all.len(),
        listing_at(all.take(n), dir) is Some,
    ensures
        listing_at(all, dir) == listing_at(all.take(n), dir),
    decreases all.len() - n,
{
    if n == all.len() {
        assert(all.take(n) =~= all);
    } else {
        assert(all.take(n + 1).drop_last() =~= all.take(n));
        lemma_first_listing(all, dir, n + 1);
    }
}

proof fn lemma_start(p: ProbeView, module: Seq<char>, name: Seq<char>)
    ensures
        p.leads(module, name, (module, name)),
{
    let none = Seq::<int>::empty();
    assert(p.is_chain(module, name, none));
    assert(p.end_of(module, name, none, none.len() as int) == (module, name));
}

proof fn lemma_needed(
    p: ProbeView,
    module: Seq<char>,
    name: Seq<char>,
    end_module: Seq<char>,
    end_name: Seq<char>,
    dir: Seq<char>,
)
    requires
        p.leads(module, name, (end_module, end_name)),
        !p.listed(dir),
        exists|b: int| 0 <= b < p.sys_path.len() && #[trigger] p.dir_of(b, end_module) == dir,
    ensures
        p.needs(module, name, dir),
{
    let end = (end_module, end_name);
    let b = choose|b: int| 0 <= b < p.sys_path.len() && #[trigger] p.dir_of(b, end_module) == dir;
    assert(p.leads(module, name, end) && p.dir_of(b, end.0) == dir);
}

/// A chain can be continued by a re-export that binds what it leads to.
proof fn lemma_longer(
    p: ProbeView,
    module: Seq<char>,
    name: Seq<char>,
    end: (Seq<char>, Seq<char>),
    i: int,
)
    requires
        p.leads(module, name, end),
        0 <= i < p.reexports.len(),
        p.applies(p.reexports[i], end.0, end.1),
    ensures
        p.leads(module, name, (p.reexports[i].module, p.reexports[i].name)),
{
    let chain = choose|chain: Seq<int>|
        p.is_chain(module, name, chain) && #[trigger] p.end_of(
            module,
            name,
            chain,
            chain.len() as int,
        ) == end;
    let longer = chain.push(i);
    assert forall|k: int| 0 <= k < longer.len() implies 0 <= #[trigger] longer[k]
        < p.reexports.len() && p.applies(
        p.reexports[longer[k]],
        p.end_of(module, name, longer, k).0,
        p.end_of(module, name, longer, k).1,
    ) by {
        assert(p.end_of(module, name, longer, k) == p.end_of(module, name, chain, k));
        if k < chain.len() {
            assert(longer[k] == chain[k]);
        }
    }
    assert(p.end_of(module, name, longer, longer.len() as int) == (
        p.reexports[i].module,
        p.reexports[i].name,
    ));
}

proof fn lemma_step(
    probe: &ModuleProbe,
    seen: Seq<bool>,
    module: Seq<char>,
    name: Seq<char>,
    i: int,
)
    requires
        seen.len() == probe@.reexports.len(),
        0 <= i < seen.len(),
        probe.open_at(seen, module, name, i),
        forall|j: int|
            0 <= j < seen.len() && seen[j] ==> probe@.leads(
                module,
                name,
                ((#[trigger] probe@.reexports[j]).module, probe@.reexports[j].name),
            ),
    ensures
        probe@.leads(module, name, (probe@.reexports[i].module, probe@.reexports[i].name)),
{
    let p = probe@;
    let e = p.reexports[i];
    if p.applies(e, module, name) {
        lemma_start(p, module, name);
        lemma_longer(p, module, name, (module, name), i);
    } else {
        let j = choose|j: int|
            0 <= j < seen.len() && seen[j] && p.applies(
                e,
                (#[trigger] p.reexports[j]).module,
                p.reexports[j].name,
            );
        lemma_longer(p, module, name, (p.reexports[j].module, p.reexports[j].name), i);
    }
}

/// Where every re-export that continues from what was followed was itself followed, every chain
/// stays within what was followed.
proof fn lemma_chain_seen(
    probe: &ModuleProbe,
    seen: Seq<bool>,
    module: Seq<char>,
    name: Seq<char>,
    chain: Seq<int>,
    k: int,
)
    requires
        seen.len() == probe@.reexports.len(),
        forall|i: int|
            0 <= i < seen.len() && #[trigger] probe.open_at(seen, module, name, i) ==> seen[i],
        probe@.is_chain(module, name, chain),
        0 <= k < chain.len(),
    ensures
        0 <= chain[k] < seen.len(),
        seen[chain[k]],
    decreases k,
{
    let p = probe@;
    assert(0 <= chain[k] < p.reexports.len());
    if k > 0 {
        lemma_chain_seen(probe, seen, module, name, chain, k - 1);
        assert(seen[chain[k - 1]]);
        assert(p.applies(
            p.reexports[chain[k]],
            p.reexports[chain[k - 1]].module,
            p.reexports[chain[k - 1]].name,
        ));
    }
    assert(probe.open_at(seen, module, name, chain[k]));
}

proof fn lemma_closed(probe: &ModuleProbe, seen: Seq<bool>, module: Seq<char>, name: Seq<char>)
    requires
        seen.len() == probe@.reexports.len(),
        forall|i: int|
            0 <= i < seen.len() && #[trigger] probe.open_at(seen, module, name, i) ==> seen[i],
        !probe@.direct(module, name),
        probe@.surveyed(module),
        forall|j: int|
            0 <= j < seen.len() && seen[j] ==> !probe@.direct(
                (#[trigger] probe@.reexports[j]).module,
                probe@.reexports[j].name,
            ) && probe@.surveyed(probe@.reexports[j].module),
    ensures
        !probe@.is_module(module, name),
        probe@.settled(module, name),
{
    let p = probe@;
    assert forall|end: (Seq<char>, Seq<char>)| #[trigger] p.leads(module, name, end) implies !p.direct(
        end.0,
        end.1,
    ) && p.surveyed(end.0) by {
        let chain = choose|chain: Seq<int>|
            p.is_chain(module, name, chain) && #[trigger] p.end_of(
                module,
                name,
                chain,
                chain.len() as int,
            ) == end;
        if chain.len() > 0 {
            lemma_chain_seen(probe, seen, module, name, chain, chain.len() - 1);
            assert(p.reexports[chain[chain.len() - 1]].module == end.0);
        }
    }
}

// ---------------------------------------------------------------------------
// Laws
// ---------------------------------------------------------------------------

/// A name that is needed to be listed is not settled, so an answer is owed once all is listed.
pub proof fn law_settled_needs_nothing(
    p: ProbeView,
    module: Seq<char>,
    name: Seq<char>,
    dir: Seq<char>,
)
    requires
        p.settled(module, name),
    ensures
        !p.needs(module, name, dir),
{
}

/// Listing a directory keeps what was known: chains stay chains.
proof fn lemma_chain_stays(
    p: ProbeView,
    l: ListingView,
    init: Option<Seq<char>>,
    module: Seq<char>,
    name: Seq<char>,
    chain: Seq<int>,
)
    requires
        p.is_chain(module, name, chain),
    ensures
        p.with(l, init).is_chain(module, name, chain),
        p.with(l, init).end_of(module, name, chain, chain.len() as int) == p.end_of(
            module,
            name,
            chain,
            chain.len() as int,
        ),
{
    let q = p.with(l, init);
    assert forall|k: int| 0 <= k < chain.len() implies 0 <= #[trigger] chain[k]
        < q.reexports.len() && q.applies(
        q.reexports[chain[k]],
        q.end_of(module, name, chain, k).0,
        q.end_of(module, name, chain, k).1,
    ) by {
        let e = p.reexports[chain[k]];
        let end = p.end_of(module, name, chain, k);
        if k > 0 {
            assert(0 <= chain[k - 1] < p.reexports.len());
        }
        assert(q.end_of(module, name, chain, k) == end);
        assert(q.reexports[chain[k]] == e);
        let b = choose|b: int| 0 <= b < p.sys_path.len() && #[trigger] p.dir_of(b, end.0) == e.dir;
        assert(q.dir_of(b, end.0) == e.dir);
    }
    if chain.len() > 0 {
        assert(0 <= chain[chain.len() - 1] < p.reexports.len());
    }
}

proof fn lemma_direct_stays(
    p: ProbeView,
    l: ListingView,
    init: Option<Seq<char>>,
    module: Seq<char>,
    name: Seq<char>,
)
    requires
        p.direct(module, name),
    ensures
        p.with(l, init).direct(module, name),
{
    let q = p.with(l, init);
    assert(q.listings.drop_last() =~= p.listings);
    let b = choose|b: int|
        0 <= b < p.sys_path.len() && p.holds(#[trigger] p.dir_of(b, module), name);
    assert(q.holds(q.dir_of(b, module), name));
}

/// What is a module stays one when another directory is listed.
pub proof fn law_modules_stay_modules(
    p: ProbeView,
    l: ListingView,
    init: Option<Seq<char>>,
    module: Seq<char>,
    name: Seq<char>,
)
    requires
        p.is_module(module, name),
    ensures
        p.with(l, init).is_module(module, name),
{
    let q = p.with(l, init);
    let end = choose|end: (Seq<char>, Seq<char>)| #[trigger]
        p.leads(module, name, end) && p.direct(end.0, end.1);
    let chain = choose|chain: Seq<int>|
        p.is_chain(module, name, chain) && #[trigger] p.end_of(
            module,
            name,
            chain,
            chain.len() as int,
        ) == end;
    lemma_chain_stays(p, l, init, module, name, chain);
    assert(q.leads(module, name, end));
    lemma_direct_stays(p, l, init, end.0, end.1);
}

/// Every re-export of the `__init__.py` of a directory belongs to that directory.
proof fn lemma_reexports_in(dir: Seq<char>, nodes: Seq<NodeView>, n: int, i: int)
    requires
        0 <= i < reexports_to(dir, nodes, n).len(),
    ensures
        reexports_to(dir, nodes, n)[i].dir == dir,
    decreases n,
{
    if n > 0 && i < reexports_to(dir, nodes, n - 1).len() {
        lemma_reexports_in(dir, nodes, n - 1, i);
    }
}

/// The first `k` re-exports of a chain were already known, where all was listed that the answer
/// rests on.
proof fn lemma_chain_was_known(
    p: ProbeView,
    l: ListingView,
    init: Option<Seq<char>>,
    module: Seq<char>,
    name: Seq<char>,
    chain: Seq<int>,
    k: int,
)
    requires
        !p.listed(l.path),
        p.settled(module, name),
        p.with(l, init).is_chain(module, name, chain),
        0 <= k <= chain.len(),
    ensures
        p.is_chain(module, name, chain.take(k)),
        p.leads(module, name, p.with(l, init).end_of(module, name, chain, k)),
        p.end_of(module, name, chain.take(k), k) == p.with(l, init).end_of(module, name, chain, k),
    decreases k,
{
    let q = p.with(l, init);
    if k == 0 {
        lemma_start(p, module, name);
    } else {
        lemma_chain_was_known(p, l, init, module, name, chain, k - 1);
        let end = q.end_of(module, name, chain, k - 1);
        let i = chain[k - 1];
        let e = q.reexports[i];
        assert(q.applies(e, end.0, end.1));
        let b = choose|b: int| 0 <= b < q.sys_path.len() && #[trigger] q.dir_of(b, end.0) == e.dir;
        assert(p.leads(module, name, end));
        assert(p.listed(p.dir_of(b, end.0)));
        assert(p.dir_of(b, end.0) == e.dir);
        if i >= p.reexports.len() {
            let nodes = module_nodes(init->0);
            lemma_reexports_in(l.path, nodes, nodes.len() as int, i - p.reexports.len());
            assert(e.dir == l.path);
        }
        assert(p.reexports[i] == e);
        assert(p.applies(e, end.0, end.1));
        lemma_longer(p, module, name, end, i);
        let now = chain.take(k);
        let before = chain.take(k - 1);
        assert forall|c: int| 0 <= c < now.len() implies 0 <= #[trigger] now[c] < p.reexports.len()
            && p.applies(
            p.reexports[now[c]],
            p.end_of(module, name, now, c).0,
            p.end_of(module, name, now, c).1,
        ) by {
            assert(p.end_of(module, name, now, c) == p.end_of(module, name, before, c));
            if c < k - 1 {
                assert(now[c] == before[c]);
            }
        }
    }
}

/// What was found to be no module stays none when another directory is listed.
pub proof fn law_settled_answers_stay(
    p: ProbeView,
    l: ListingView,
    init: Option<Seq<char>>,
    module: Seq<char>,
    name: Seq<char>,
)
    requires
        !p.listed(l.path),
        p.settled(module, name),
        !p.is_module(module, name),
    ensures
        !p.with(l, init).is_module(module, name),
        p.with(l, init).settled(module, name),
{
    let q = p.with(l, init);
    assert(q.listings.drop_last() =~= p.listings);
    assert forall|end: (Seq<char>, Seq<char>)| #[trigger] q.leads(module, name, end) implies !q.direct(
        end.0,
        end.1,
    ) && q.surveyed(end.0) by {
        let chain = choose|chain: Seq<int>|
            q.is_chain(module, name, chain) && #[trigger] q.end_of(
                module,
                name,
                chain,
                chain.len() as int,
            ) == end;
        lemma_chain_was_known(p, l, init, module, name, chain, chain.len() as int);
        assert(p.leads(module, name, end));
        assert(!p.direct(end.0, end.1));
        assert forall|b: int| 0 <= b < q.sys_path.len() implies q.listed(
            #[trigger] q.dir_of(b, end.0),
        ) && !q.holds(q.dir_of(b, end.0), end.1) by {
            assert(p.listed(p.dir_of(b, end.0)));
            assert(!p.holds(p.dir_of(b, end.0), end.1));
        }
    }
}

/// What was found out of an outermost package stays so when another directory is listed.
pub proof fn law_known_roots_stay(
    p: ProbeView,
    l: ListingView,
    init: Option<Seq<char>>,
    root: Seq<char>,
    answer: bool,
)
    requires
        !p.listed(l.path),
        p.is_final_root(root, answer),
    ensures
        p.with(l, init).is_final_root(root, answer),
{
    let q = p.with(l, init);
    assert(q.listings.drop_last() =~= p.listings);
    if answer {
        let b = choose|b: int| 0 <= b < p.sys_path.len() && p.holds(#[trigger] p.sys_path[b], root);
        assert(q.holds(q.sys_path[b], root));
    } else {
        assert forall|b: int| 0 <= b < q.sys_path.len() implies q.listed(
            #[trigger] q.sys_path[b],
        ) && !q.holds(q.sys_path[b], root) by {
            assert(p.listed(p.sys_path[b]));
            assert(!p.holds(p.sys_path[b], root));
        }
    }
}

} // verus!
