//! The documents that a language client has open, and the settings that it sends.
use crate::config::Config;
use crate::document::{loose_list_in, opt_texts, read_loose_list, read_text_in, text_in};
use crate::json::{json_views, Json, JsonView};
use crate::lsp_position::{patch, patched, Range};
use crate::parse::{json_tree, read_json};
use crate::text::{chars, eq, string, strs};
use crate::types::{lowercase, opt, violation_views, Level, Violation, ViolationView};
use vstd::prelude::*;
use vstd::string::*;

verus! {

/// What is known of an open document.
pub struct DocumentState {
    pub source: String,
    pub version: i32,
    /// What was last found in the document; forgotten when the text changes.
    pub diagnostics: Vec<Violation>,
}

/// What a [`DocumentState`] says.
#[verifier::ext_equal]
pub struct DocumentView {
    pub source: Seq<char>,
    pub version: i32,
    pub diagnostics: Seq<ViolationView>,
}

impl View for DocumentState {
    type V = DocumentView;

    open spec fn view(&self) -> DocumentView {
        DocumentView {
            source: self.source@,
            version: self.version,
            diagnostics: violation_views(self.diagnostics@),
        }
    }
}

/// A change to a document: a new text for a range, or for the whole.
pub struct Change {
    pub range: Option<Range>,
    pub text: String,
}

/// A text after a change.
pub open spec fn changed(s: Seq<char>, c: Change) -> Seq<char> {
    match c.range {
        Some(range) => patched(s, range, c.text@),
        None => c.text@,
    }
}

/// A text after the first `n` changes.
pub open spec fn all_changed(s: Seq<char>, changes: Seq<Change>, n: int) -> Seq<char>
    decreases n,
{
    if n <= 0 {
        s
    } else {
        changed(all_changed(s, changes, n - 1), changes[n - 1])
    }
}

/// Whether every range starts no later than it ends.
pub open spec fn all_ordered(changes: Seq<Change>) -> bool {
    forall|i: int|
        0 <= i < changes.len() && (#[trigger] changes[i]).range is Some
            ==> changes[i].range->0.ordered()
}

/// Whether every range starts no later than it ends.
pub fn are_ordered(changes: &Vec<Change>) -> (r: bool)
    ensures
        r == all_ordered(changes@),
{
    let mut i: usize = 0;
    while i < changes.len()
        invariant
            i <= changes@.len(),
            forall|j: int|
                0 <= j < i && (#[trigger] changes@[j]).range is Some
                    ==> changes@[j].range->0.ordered(),
        decreases changes@.len() - i,
    {
        match &changes[i].range {
            Some(range) => {
                if !range.is_ordered() {
                    return false;
                }
            },
            None => {},
        }
        i += 1;
    }
    true
}

/// What a client sends of its settings: the lists and the level, each as far as it is there.
pub struct EditorSettings {
    pub select: Option<Vec<String>>,
    pub ignore: Option<Vec<String>>,
    pub level: Option<String>,
}

/// The settings that an editor answers with: the first of its list, where that is an object.
pub open spec fn settings_answered(j: JsonView) -> Option<JsonView> {
    match j {
        JsonView::List(v) => if v.len() > 0 && v[0] is Object {
            Some(v[0])
        } else {
            None
        },
        _ => None,
    }
}

/// Reads the settings that an editor answers with. What is not what it should be counts as
/// absent.
pub fn settings_in_answer(answer: &Json) -> (r: Option<EditorSettings>)
    ensures
        match r {
            Some(e) => {
                let j = settings_answered(answer@);
                &&& j is Some
                &&& opt_texts(e.select) == loose_list_in(j->0, "select"@)
                &&& opt_texts(e.ignore) == loose_list_in(j->0, "ignore"@)
                &&& opt(e.level) == text_in(j->0, "level"@)
            },
            None => settings_answered(answer@) is None,
        },
{
    let v = match answer {
        Json::List(v) => v,
        _ => return None,
    };
    assert(answer@->List_0 =~= json_views(v@));
    if v.len() == 0 {
        return None;
    }
    assert(json_views(v@)[0] == v@[0]@);
    match &v[0] {
        Json::Object(_) => {},
        _ => return None,
    }
    Some(
        EditorSettings {
            select: read_loose_list(&v[0], "select"),
            ignore: read_loose_list(&v[0], "ignore"),
            level: read_text_in(&v[0], "level"),
        },
    )
}

/// Reads the settings in the JSON text that an editor answers with.
pub fn read_editor_settings(answer: &str) -> (r: Option<EditorSettings>)
    ensures
        match json_tree(answer@) {
            Some(document) => match r {
                Some(e) => {
                    let j = settings_answered(document);
                    &&& j is Some
                    &&& opt_texts(e.select) == loose_list_in(j->0, "select"@)
                    &&& opt_texts(e.ignore) == loose_list_in(j->0, "ignore"@)
                    &&& opt(e.level) == text_in(j->0, "level"@)
                },
                None => settings_answered(document) is None,
            },
            None => r is None,
        },
{
    match read_json(answer) {
        Some(document) => settings_in_answer(&document),
        None => None,
    }
}

/// The open documents and the configuration.
pub struct Session {
    /// Each document with its address.
    pub documents: Vec<(String, DocumentState)>,
    pub config: Config,
    /// The directory that the configuration is looked for in.
    pub root: String,
}

/// The documents by their addresses.
pub open spec fn document_views(v: Seq<(String, DocumentState)>) -> Seq<(Seq<char>, DocumentView)> {
    v.map_values(|d: (String, DocumentState)| (d.0@, d.1@))
}

/// The place of the first document with an address; the number of documents where there is none.
pub open spec fn place_of(v: Seq<(Seq<char>, DocumentView)>, uri: Seq<char>) -> int
    decreases v.len(),
{
    if v.len() == 0 || v[0].0 == uri {
        0
    } else {
        1 + place_of(v.skip(1), uri)
    }
}

/// The document with an address.
pub open spec fn document_at(v: Seq<(Seq<char>, DocumentView)>, uri: Seq<char>) -> Option<
    DocumentView,
> {
    let i = place_of(v, uri);
    if i < v.len() {
        Some(v[i].1)
    } else {
        None
    }
}

/// The documents with one at an address.
pub open spec fn with_document(
    v: Seq<(Seq<char>, DocumentView)>,
    uri: Seq<char>,
    d: DocumentView,
) -> Seq<(Seq<char>, DocumentView)> {
    let i = place_of(v, uri);
    if i < v.len() {
        v.update(i, (uri, d))
    } else {
        v.push((uri, d))
    }
}

/// The documents without those at an address.
pub open spec fn without_document(
    v: Seq<(Seq<char>, DocumentView)>,
    uri: Seq<char>,
) -> Seq<(Seq<char>, DocumentView)>
    decreases v.len(),
{
    if v.len() == 0 {
        v
    } else {
        let rest = without_document(v.drop_last(), uri);
        if v.last().0 == uri {
            rest
        } else {
            rest.push(v.last())
        }
    }
}

impl Session {
    /// What is open.
    pub open spec fn open_documents(self) -> Seq<(Seq<char>, DocumentView)> {
        document_views(self.documents@)
    }

    /// A session without documents.
    pub fn new(config: Config, root: String) -> (r: Session)
        ensures
            r.open_documents() == Seq::<(Seq<char>, DocumentView)>::empty(),
            r.config == config,
            r.root == root,
    {
        let r = Session { documents: Vec::new(), config, root };
        assert(r.open_documents() =~= Seq::empty());
        r
    }

    fn find(&self, uri: &str) -> (r: usize)
        ensures
            r == place_of(self.open_documents(), uri@),
            r <= self.documents@.len(),
            r < self.documents@.len() ==> self.documents@[r as int].0@ == uri@,
    {
        let ghost all = self.open_documents();
        let mut i: usize = 0;
        assert(all.skip(0) =~= all);
        while i < self.documents.len()
            invariant
                i <= self.documents@.len(),
                all == self.open_documents(),
                place_of(all, uri@) == i + place_of(all.skip(i as int), uri@),
            decreases self.documents@.len() - i,
        {
            assert(all.skip(i as int)[0] == (
                self.documents@[i as int].0@,
                self.documents@[i as int].1@,
            ));
            assert(all.skip(i as int).skip(1) =~= all.skip(i + 1));
            if eq(self.documents[i].0.as_str(), uri) {
                return i;
            }
            i += 1;
        }
        i
    }

    fn put(&mut self, uri: &str, d: DocumentState)
        ensures
            final(self).open_documents() == with_document(old(self).open_documents(), uri@, d@),
            final(self).config == old(self).config,
            final(self).root == old(self).root,
    {
        let ghost before = self.open_documents();
        let ghost said = d@;
        let i: usize = self.find(uri);
        if i < self.documents.len() {
            self.documents.set(i, (uri.to_owned(), d));
            assert(self.open_documents() =~= before.update(i as int, (uri@, said)));
        } else {
            self.documents.push((uri.to_owned(), d));
            assert(self.open_documents() =~= before.push((uri@, said)));
        }
    }

    /// Opens a document.
    pub fn open(&mut self, uri: &str, version: i32, text: String)
        ensures
            final(self).open_documents() == with_document(
                old(self).open_documents(),
                uri@,
                (DocumentView { source: text@, version, diagnostics: Seq::empty() }),
            ),
            final(self).config == old(self).config,
            final(self).root == old(self).root,
    {
        let d = DocumentState { source: text, version, diagnostics: Vec::new() };
        assert(d@.diagnostics =~= Seq::empty());
        self.put(uri, d);
    }

    /// Changes a document that is open. What was found in it is forgotten.
    pub fn update(&mut self, uri: &str, version: i32, changes: &Vec<Change>)
        requires
            all_ordered(changes@),
        ensures
            final(self).open_documents() == match document_at(old(self).open_documents(), uri@) {
                Some(d) => with_document(
                    old(self).open_documents(),
                    uri@,
                    DocumentView {
                        source: all_changed(d.source, changes@, changes@.len() as int),
                        version,
                        diagnostics: Seq::empty(),
                    },
                ),
                None => old(self).open_documents(),
            },
            final(self).config == old(self).config,
            final(self).root == old(self).root,
    {
        let ghost all = self.open_documents();
        let at: usize = self.find(uri);
        if at >= self.documents.len() {
            return;
        }
        assert(all[at as int].1 == self.documents@[at as int].1@);
        let ghost start = self.documents@[at as int].1.source@;
        let mut text = chars(self.documents[at].1.source.as_str());
        let mut i: usize = 0;
        while i < changes.len()
            invariant
                i <= changes@.len(),
                all_ordered(changes@),
                text@ == all_changed(start, changes@, i as int),
            decreases changes@.len() - i,
        {
            let new = chars(changes[i].text.as_str());
            match changes[i].range {
                Some(range) => {
                    text = patch(text.as_slice(), range, new.as_slice());
                },
                None => {
                    text = new;
                },
            }
            i += 1;
        }
        let d = DocumentState { source: string(text.as_slice()), version, diagnostics: Vec::new() };
        assert(d@.diagnostics =~= Seq::empty());
        self.put(uri, d);
    }

    /// Closes a document.
    pub fn close(&mut self, uri: &str)
        ensures
            final(self).open_documents() == without_document(old(self).open_documents(), uri@),
            final(self).config == old(self).config,
            final(self).root == old(self).root,
    {
        let ghost all = self.open_documents();
        let mut kept: Vec<(String, DocumentState)> = Vec::new();
        let ghost mut n: int = 0;
        assert(document_views(kept@) =~= Seq::empty());
        assert(all.take(0) =~= Seq::empty());
        while self.documents.len() > 0
            invariant
                0 <= n <= all.len(),
                all == old(self).open_documents(),
                self.open_documents() == all.skip(n),
                self.documents@.len() == all.len() - n,
                document_views(kept@) == without_document(all.take(n), uri@),
                self.config == old(self).config,
                self.root == old(self).root,
            decreases self.documents@.len(),
        {
            let ghost prior = self.documents@;
            assert(self.open_documents()[0] == all[n]);
            let (name, d) = self.documents.remove(0);
            assert forall|i: int| 0 <= i < self.documents@.len() implies (
                #[trigger] self.documents@[i].0@,
                self.documents@[i].1@,
            ) == all[n + 1 + i] by {
                assert(self.documents@[i] == prior[i + 1]);
                assert(document_views(prior)[i + 1] == all.skip(n)[i + 1]);
            }
            assert(self.open_documents() =~= all.skip(n + 1));
            assert(all.take(n + 1).drop_last() =~= all.take(n));
            assert(all.take(n + 1).last() == (name@, d@));
            if !eq(name.as_str(), uri) {
                let ghost before = kept@;
                let ghost pair = (name@, d@);
                kept.push((name, d));
                assert(document_views(kept@) =~= document_views(before).push(pair));
            }
            proof {
                n = n + 1;
            }
        }
        assert(all.take(n) =~= all);
        self.documents = kept;
    }

    /// The text of an open document.
    pub fn source(&self, uri: &str) -> (r: Option<&str>)
        ensures
            match r {
                Some(text) => document_at(self.open_documents(), uri@) is Some && text@
                    == document_at(self.open_documents(), uri@)->0.source,
                None => document_at(self.open_documents(), uri@) is None,
            },
    {
        let i: usize = self.find(uri);
        if i < self.documents.len() {
            assert(self.open_documents()[i as int].1 == self.documents@[i as int].1@);
            Some(self.documents[i].1.source.as_str())
        } else {
            None
        }
    }

    /// Keeps what was found in a document that is open.
    pub fn set_diagnostics(&mut self, uri: &str, diags: Vec<Violation>)
        ensures
            final(self).open_documents() == match document_at(old(self).open_documents(), uri@) {
                Some(d) => with_document(
                    old(self).open_documents(),
                    uri@,
                    DocumentView { diagnostics: violation_views(diags@), ..d },
                ),
                None => old(self).open_documents(),
            },
            final(self).config == old(self).config,
            final(self).root == old(self).root,
    {
        let ghost all = self.open_documents();
        let i: usize = self.find(uri);
        if i >= self.documents.len() {
            return;
        }
        assert(all[i as int].1 == self.documents@[i as int].1@);
        let d = DocumentState {
            source: self.documents[i].1.source.clone(),
            version: self.documents[i].1.version,
            diagnostics: diags,
        };
        self.put(uri, d);
    }

    /// What was last found in a document; nothing where it is not open.
    pub open spec fn found_in(self, uri: Seq<char>) -> Seq<ViolationView> {
        match document_at(self.open_documents(), uri) {
            Some(d) => d.diagnostics,
            None => Seq::empty(),
        }
    }

    /// What was last found in a document, as copies.
    pub fn diagnostics(&self, uri: &str) -> (r: Vec<Violation>)
        ensures
            violation_views(r@) == self.found_in(uri@),
    {
        let i: usize = self.find(uri);
        let mut out: Vec<Violation> = Vec::new();
        assert(violation_views(out@) =~= Seq::empty());
        if i >= self.documents.len() {
            return out;
        }
        assert(self.open_documents()[i as int].1 == self.documents@[i as int].1@);
        let ghost all = violation_views(self.documents@[i as int].1.diagnostics@);
        let mut k: usize = 0;
        assert(all.take(0) =~= Seq::empty());
        while k < self.documents[i].1.diagnostics.len()
            invariant
                i < self.documents@.len(),
                k <= self.documents@[i as int].1.diagnostics@.len(),
                all == violation_views(self.documents@[i as int].1.diagnostics@),
                violation_views(out@) == all.take(k as int),
            decreases self.documents@[i as int].1.diagnostics@.len() - k,
        {
            let v = crate::engine::copy_violation(&self.documents[i].1.diagnostics[k]);
            let ghost before = out@;
            out.push(v);
            assert(violation_views(out@) =~= violation_views(before).push(v@));
            assert(all.take(k + 1) =~= all.take(k as int).push(v@));
            k += 1;
        }
        assert(all.take(all.len() as int) =~= all);
        out
    }

    /// The addresses of the open documents.
    pub fn uris(&self) -> (r: Vec<String>)
        ensures
            strs(r@) == self.open_documents().map_values(|d: (Seq<char>, DocumentView)| d.0),
    {
        let ghost all = self.open_documents().map_values(|d: (Seq<char>, DocumentView)| d.0);
        let mut out: Vec<String> = Vec::new();
        let mut i: usize = 0;
        assert(strs(out@) =~= all.take(0));
        while i < self.documents.len()
            invariant
                i <= self.documents@.len(),
                all == self.open_documents().map_values(|d: (Seq<char>, DocumentView)| d.0),
                strs(out@) == all.take(i as int),
            decreases self.documents@.len() - i,
        {
            let ghost before = out@;
            out.push(self.documents[i].0.clone());
            assert(strs(out@) =~= strs(before).push(self.documents@[i as int].0@));
            assert(all.take(i + 1) =~= all.take(i as int).push(all[i as int]));
            i += 1;
        }
        assert(all.take(all.len() as int) =~= all);
        out
    }

    /// Takes over a configuration that was read anew.
    pub fn reload_config(&mut self, config: Config)
        ensures
            final(self).config == config,
            final(self).documents == old(self).documents,
            final(self).root == old(self).root,
    {
        self.config = config;
    }

    /// Takes over what a client sends of its settings. What it does not send stays as it is, and
    /// so does the level where it sends one that is no level.
    pub fn apply_editor_settings(&mut self, settings: EditorSettings)
        ensures
            final(self).documents == old(self).documents,
            final(self).root == old(self).root,
            final(self).config == (Config {
                lint: final(self).config.lint,
                ..old(self).config
            }),
            final(self).config.lint.per_file_ignores == old(self).config.lint.per_file_ignores,
            final(self).config.lint.noqa_aliases == old(self).config.lint.noqa_aliases,
            final(self).config.lint.rules == old(self).config.lint.rules,
            final(self).config.lint.select == match settings.select {
                Some(select) => select,
                None => old(self).config.lint.select,
            },
            final(self).config.lint.ignore == match settings.ignore {
                Some(ignore) => ignore,
                None => old(self).config.lint.ignore,
            },
            final(self).config.lint.level == match settings.level {
                Some(name) => match Level::named(lowercase(name@)) {
                    Some(level) => level,
                    None => old(self).config.lint.level,
                },
                None => old(self).config.lint.level,
            },
    {
        match settings.select {
            Some(select) => {
                self.config.lint.select = select;
            },
            None => {},
        }
        match settings.ignore {
            Some(ignore) => {
                self.config.lint.ignore = ignore;
            },
            None => {},
        }
        match settings.level {
            Some(name) => match Level::parse(name.as_str()) {
                Ok(level) => {
                    self.config.lint.level = level;
                },
                Err(_) => {},
            },
            None => {},
        }
    }
}

// ---------------------------------------------------------------------------
// Laws
// ---------------------------------------------------------------------------

proof fn lemma_place_bounds(v: Seq<(Seq<char>, DocumentView)>, uri: Seq<char>)
    ensures
        0 <= place_of(v, uri) <= v.len(),
        place_of(v, uri) < v.len() ==> v[place_of(v, uri)].0 == uri,
    decreases v.len(),
{
    if v.len() > 0 && v[0].0 != uri {
        lemma_place_bounds(v.skip(1), uri);
    }
}

/// What is put at an address is found there.
pub proof fn law_put_is_found(
    v: Seq<(Seq<char>, DocumentView)>,
    uri: Seq<char>,
    d: DocumentView,
)
    ensures
        document_at(with_document(v, uri, d), uri) == Some(d),
    decreases v.len(),
{
    let w = with_document(v, uri, d);
    lemma_place_bounds(v, uri);
    if v.len() == 0 {
        assert(w =~= seq![(uri, d)]);
    } else if v[0].0 == uri {
        assert(w =~= v.update(0, (uri, d)));
    } else {
        let rest = v.skip(1);
        law_put_is_found(rest, uri, d);
        lemma_place_bounds(rest, uri);
        assert(w.skip(1) =~= with_document(rest, uri, d));
        assert(w[0] == v[0]);
        lemma_place_bounds(w.skip(1), uri);
        let i = place_of(w.skip(1), uri);
        assert(w[i + 1] == w.skip(1)[i]);
    }
}

/// A document that is closed is not found.
pub proof fn law_closed_is_gone(v: Seq<(Seq<char>, DocumentView)>, uri: Seq<char>)
    ensures
        document_at(without_document(v, uri), uri) is None,
{
    lemma_closed(v, uri);
    let w = without_document(v, uri);
    lemma_place_bounds(w, uri);
}

proof fn lemma_closed(v: Seq<(Seq<char>, DocumentView)>, uri: Seq<char>)
    ensures
        forall|i: int|
            0 <= i < without_document(v, uri).len() ==> (#[trigger] without_document(v, uri)[i]).0
                != uri,
    decreases v.len(),
{
    if v.len() > 0 {
        lemma_closed(v.drop_last(), uri);
        let rest = without_document(v.drop_last(), uri);
        let w = without_document(v, uri);
        assert forall|i: int| 0 <= i < w.len() implies (#[trigger] w[i]).0 != uri by {
            if i < rest.len() {
                assert(w[i] == rest[i]);
            }
        }
    }
}

/// After a change of text nothing is known to be found in a document.
pub proof fn law_change_forgets(
    v: Seq<(Seq<char>, DocumentView)>,
    uri: Seq<char>,
    source: Seq<char>,
    version: i32,
)
    ensures
        document_at(
            with_document(
                v,
                uri,
                DocumentView { source, version, diagnostics: Seq::empty() },
            ),
            uri,
        )->0.diagnostics.len() == 0,
{
    law_put_is_found(
        v,
        uri,
        DocumentView { source, version, diagnostics: Seq::empty() },
    );
}

} // verus!
