//! Import resolution: which imports name other source files, where to look
//! for them, and the order in which the items of the files they lead to are
//! collected. Finding and reading files is left to the caller; the walk here
//! says what to look up next and takes back what was found.
use vstd::prelude::*;
use crate::text::{push_char, push_str, string_of_lit};
use crate::lexer::source_chars;
use crate::ast::{Module, ModuleItem, ImportStmt, SModuleItem, SImportStmt, view_module, view_module_item, view_import_stmt, view_module_item_seq, lemma_view_module_item_seq_push, lemma_view_module_item_seq_index, view_string_seq, lemma_view_string_seq_push, lemma_view_string_seq_index};

verus! {

// ------------------------------------------------------------------
// Import sources
// ------------------------------------------------------------------

pub open spec fn has_prefix(s: Seq<char>, p: Seq<char>) -> bool {
    p.len() <= s.len() && s.subrange(0, p.len() as int) == p
}

/// The path an import source is looked up by: `cap:name` is looked up as `cap/name`.
pub open spec fn search_source(s: Seq<char>) -> Seq<char> {
    if has_prefix(s, seq!['c', 'a', 'p', ':']) {
        seq!['c', 'a', 'p', '/'] + s.subrange(4, s.len() as int)
    } else {
        s
    }
}

/// A search path that is looked up next to the importing file (and then in the
/// include paths); any other names a dependency in a `cap_modules` directory.
pub open spec fn is_local_source(s: Seq<char>) -> bool {
    has_prefix(s, "./"@) || has_prefix(s, "../"@) || has_prefix(s, "/"@) || has_prefix(s, "cap/"@)
}

/// `s` starts with `p`.
pub fn starts_with(s: &str, p: &str) -> (r: bool)
    ensures
        r == has_prefix(s@, p@),
{
    let sc = source_chars(s);
    let pc = source_chars(p);
    if pc.len() > sc.len() {
        return false;
    }
    let mut i: usize = 0;
    while i < pc.len()
        invariant
            sc@ == s@,
            pc@ == p@,
            pc@.len() <= sc@.len(),
            i <= pc@.len(),
            forall|j: int| 0 <= j < i ==> sc@[j] == pc@[j],
        decreases pc@.len() - i,
    {
        if sc[i] != pc[i] {
            assert(s@.subrange(0, p@.len() as int)[i as int] != p@[i as int]);
            return false;
        }
        i = i + 1;
    }
    assert(s@.subrange(0, p@.len() as int) =~= p@);
    true
}

/// The path the import source `source` is looked up by.
pub fn search_path_of(source: &str) -> (r: std::string::String)
    ensures
        r@ == search_source(source@),
{
    let sc = source_chars(source);
    if sc.len() >= 4 && sc[0] == 'c' && sc[1] == 'a' && sc[2] == 'p' && sc[3] == ':' {
        assert(source@.subrange(0, 4) =~= seq!['c', 'a', 'p', ':']);
        let mut r = std::string::String::new();
        push_char(&mut r, 'c');
        push_char(&mut r, 'a');
        push_char(&mut r, 'p');
        push_char(&mut r, '/');
        let mut i: usize = 4;
        while i < sc.len()
            invariant
                sc@ == source@,
                4 <= i <= sc@.len(),
                r@ == seq!['c', 'a', 'p', '/'] + sc@.subrange(4, i as int),
            decreases sc@.len() - i,
        {
            push_char(&mut r, sc[i]);
            assert(r@ =~= seq!['c', 'a', 'p', '/'] + sc@.subrange(4, i + 1));
            i = i + 1;
        }
        r
    } else {
        assert(!has_prefix(source@, seq!['c', 'a', 'p', ':']));
        string_of_lit(source)
    }
}

/// The search path is looked up next to the importing file.
pub fn is_local_import(search: &str) -> (r: bool)
    ensures
        r == is_local_source(search@),
{
    starts_with(search, "./") || starts_with(search, "../") || starts_with(search, "/") || starts_with(search, "cap/")
}

// ------------------------------------------------------------------
// Where imports are looked up
// ------------------------------------------------------------------

/// A directory under which an import's search path is looked up: the
/// importing file's own directory, an include path (by index), the
/// `cap_modules` directory of the importing file's directory (`0`) or of an
/// ancestor of it (`1` for its parent, and so on), or the global package
/// directory `~/.cap/global/cap_modules`.
#[derive(Debug, Clone, Copy, PartialEq, Eq, Structural)]
pub enum SearchBase {
    Beside,
    Include(usize),
    CapModules(usize),
    Global,
}

/// The bases tried, in order, for an import: a local search path is looked up
/// beside the importing file, then in each of the `includes` include paths;
/// any other in the `cap_modules` directory of each of the `depth` directories
/// from the importing file's directory up to the root, then globally.
pub open spec fn search_bases(local: bool, includes: nat, depth: nat) -> Seq<SearchBase> {
    if local {
        seq![SearchBase::Beside] + Seq::new(includes, |i: int| SearchBase::Include(i as usize))
    } else {
        Seq::new(depth, |i: int| SearchBase::CapModules(i as usize)).push(SearchBase::Global)
    }
}

/// The bases tried, in order, for an import with search path `search`, from a
/// file with `includes` include paths whose directory has `depth` directories
/// from itself up to the root.
pub fn search_bases_for(search: &str, includes: usize, depth: usize) -> (r: Vec<SearchBase>)
    ensures
        r@ == search_bases(is_local_source(search@), includes as nat, depth as nat),
{
    let mut v: Vec<SearchBase> = Vec::new();
    if is_local_import(search) {
        v.push(SearchBase::Beside);
        let mut i: usize = 0;
        while i < includes
            invariant
                i <= includes,
                v@ == seq![SearchBase::Beside] + Seq::new(i as nat, |k: int| SearchBase::Include(k as usize)),
            decreases includes - i,
        {
            v.push(SearchBase::Include(i));
            assert(seq![SearchBase::Beside] + Seq::new((i + 1) as nat, |k: int| SearchBase::Include(k as usize))
                =~= (seq![SearchBase::Beside] + Seq::new(i as nat, |k: int| SearchBase::Include(k as usize))).push(SearchBase::Include(i)));
            i = i + 1;
        }
    } else {
        let mut i: usize = 0;
        while i < depth
            invariant
                i <= depth,
                v@ == Seq::new(i as nat, |k: int| SearchBase::CapModules(k as usize)),
            decreases depth - i,
        {
            v.push(SearchBase::CapModules(i));
            assert(Seq::new((i + 1) as nat, |k: int| SearchBase::CapModules(k as usize))
                =~= Seq::new(i as nat, |k: int| SearchBase::CapModules(k as usize)).push(SearchBase::CapModules(i)));
            i = i + 1;
        }
        v.push(SearchBase::Global);
    }
    v
}

// ------------------------------------------------------------------
// Files of a directory
// ------------------------------------------------------------------

/// The files, relative to a directory named `name`, that stand for the
/// directory as an import, in the order they are tried: its precompiled types
/// in `bin/`, then the index and main files.
pub open spec fn dir_candidates(name: Option<Seq<char>>) -> Seq<Seq<char>> {
    let defaults = seq!["index.d.cp"@, "index.cp"@, "main.d.cp"@, "main.cp"@];
    match name {
        Some(n) => seq!["bin/"@ + n + ".d.cp"@] + defaults,
        None => defaults,
    }
}

/// The files that stand for a directory named `name`, in the order they are tried.
pub fn dir_candidate_files(name: Option<&str>) -> (r: Vec<std::string::String>)
    ensures
        view_string_seq(r@) == dir_candidates(match name { Some(n) => Some(n@), None => None }),
{
    let mut v: Vec<std::string::String> = Vec::new();
    match name {
        Some(n) => {
            let mut s = string_of_lit("bin/");
            push_str(&mut s, n);
            push_str(&mut s, ".d.cp");
            proof { lemma_view_string_seq_push(v@, s); }
            v.push(s);
        },
        None => {},
    }
    let ghost head = view_string_seq(v@);
    let a = string_of_lit("index.d.cp");
    proof { lemma_view_string_seq_push(v@, a); }
    v.push(a);
    let b = string_of_lit("index.cp");
    proof { lemma_view_string_seq_push(v@, b); }
    v.push(b);
    let c = string_of_lit("main.d.cp");
    proof { lemma_view_string_seq_push(v@, c); }
    v.push(c);
    let d = string_of_lit("main.cp");
    proof { lemma_view_string_seq_push(v@, d); }
    v.push(d);
    proof {
        assert(view_string_seq(Seq::<std::string::String>::empty()) =~= Seq::<Seq<char>>::empty());
        assert(view_string_seq(v@) =~= dir_candidates(match name { Some(n) => Some(n@), None => None }));
    }
    v
}

/// The string member `key` of the JSON text `content`: present when the text
/// is a JSON object whose member `key` is a string.
pub uninterp spec fn json_str_member(content: Seq<char>, key: Seq<char>) -> Option<Seq<char>>;

/// `serde_json::from_str` into a JSON value, read through `Value::get(key)`
/// and `Value::as_str`: the result is named by `json_str_member` (`None` when
/// the text is not JSON, not an object, or has no string member `key`).
#[verifier::external_body]
fn json_string_member(content: &str, key: &str) -> (r: Option<std::string::String>)
    ensures
        match r {
            Some(s) => json_str_member(content@, key@) == Some(s@),
            None => json_str_member(content@, key@) is None,
        },
{
    match serde_json::from_str::<serde_json::Value>(content) {
        Ok(json) => json.get(key).and_then(|v| v.as_str()).map(|s| s.to_string()),
        Err(_) => None,
    }
}

/// The main file a package manifest `cap.json` with text `content` names: its
/// string member `"main"`.
pub fn cap_main(content: &str) -> (r: Option<std::string::String>)
    ensures
        match r {
            Some(s) => json_str_member(content@, "main"@) == Some(s@),
            None => json_str_member(content@, "main"@) is None,
        },
{
    json_string_member(content, "main")
}

/// The last index in `[lo, hi)` where `s` holds `c`, or -1.
pub open spec fn last_in(s: Seq<char>, c: char, lo: int, hi: int) -> int
    decreases hi - lo,
{
    if hi <= lo {
        -1
    } else if s[hi - 1] == c {
        hi - 1
    } else {
        last_in(s, c, lo, hi - 1)
    }
}

/// The path `m` without the extension of its file name: `m` up to the last `.` of
/// the part after the last `/`, unless that `.` is the first character of the
/// name, in which case `m` whole. The path is read as written.
pub open spec fn main_base_text(m: Seq<char>) -> Seq<char> {
    let k = last_in(m, '/', 0, m.len() as int);
    let d = last_in(m, '.', k + 1, m.len() as int);
    if d > k + 1 { m.subrange(0, d) } else { m }
}

proof fn lemma_last_in_range(s: Seq<char>, c: char, lo: int, hi: int)
    requires
        0 <= lo <= hi <= s.len(),
    ensures
        last_in(s, c, lo, hi) == -1 || (lo <= last_in(s, c, lo, hi) < hi && s[last_in(s, c, lo, hi)] == c),
    decreases hi - lo,
{
    if hi > lo && s[hi - 1] != c {
        lemma_last_in_range(s, c, lo, hi - 1);
    }
}

/// The index just after the last `c` in `[lo, hi)` of `m`, or `lo` when there is none.
fn after_last(m: &str, c: char, lo: usize, hi: usize) -> (r: usize)
    requires
        lo <= hi <= m@.len(),
    ensures
        r == last_in(m@, c, lo as int, hi as int) + 1 || (r == lo && last_in(m@, c, lo as int, hi as int) == -1),
        lo <= r <= hi,
{
    let mut i = hi;
    while i > lo && m.get_char(i - 1) != c
        invariant
            lo <= i <= hi <= m@.len(),
            last_in(m@, c, lo as int, hi as int) == last_in(m@, c, lo as int, i as int),
        decreases i,
    {
        i -= 1;
    }
    i
}

/// The file that the `main` entry `main_file` of a package manifest names, without
/// its extension, relative to the package directory.
pub fn main_base(main_file: &str) -> (r: std::string::String)
    ensures
        r@ == main_base_text(main_file@),
{
    let ghost m = main_file@;
    let n = main_file.unicode_len();
    let k1 = after_last(main_file, '/', 0, n);
    let d1 = after_last(main_file, '.', k1, n);
    proof {
        lemma_last_in_range(m, '/', 0, n as int);
        lemma_last_in_range(m, '.', k1 as int, n as int);
    }
    let e = if d1 > k1 && d1 - k1 > 1 { d1 - 1 } else { n };
    let mut r = std::string::String::new();
    let mut q: usize = 0;
    while q < e
        invariant
            q <= e <= n,
            n == m.len(),
            m == main_file@,
            r@ == m.subrange(0, q as int),
        decreases e - q,
    {
        let ch = main_file.get_char(q);
        push_char(&mut r, ch);
        q += 1;
        assert(r@ =~= m.subrange(0, q as int));
    }
    proof {
        let k = last_in(m, '/', 0, m.len() as int);
        assert(k1 == k + 1);
        let d = last_in(m, '.', k + 1, m.len() as int);
        if d > k + 1 {
            assert(d1 == d + 1);
        } else {
            assert(m.subrange(0, n as int) =~= m);
        }
    }
    r
}

// ------------------------------------------------------------------
// Walking the imports
// ------------------------------------------------------------------

/// A file whose items are being walked: its path, the items not walked yet,
/// and whether items other than imports are collected.
pub struct SFrame {
    pub path: Seq<char>,
    pub items: Seq<SModuleItem>,
    pub keep: bool,
}

/// The state of a walk: the files being walked (the innermost last), the items
/// collected, the files entered, and the import whose resolution is awaited.
pub struct SWalk {
    pub frames: Seq<SFrame>,
    pub out: Seq<SModuleItem>,
    pub entered: Seq<Seq<char>>,
    pub pending: Option<SImportStmt>,
}

/// Removes the first item of the innermost file.
pub open spec fn drop_first_item(w: SWalk) -> SWalk {
    let i = w.frames.len() - 1;
    let top = w.frames[i];
    SWalk {
        frames: w.frames.update(i, SFrame { path: top.path, items: top.items.drop_first(), keep: top.keep }),
        out: w.out,
        entered: w.entered,
        pending: w.pending,
    }
}

/// Walks to the next import: files with nothing left are left, and the items
/// passed over are collected where the file keeps them. Gives the path of the
/// file holding the import and the path the import is looked up by.
pub open spec fn walk(w: SWalk) -> (SWalk, Option<(Seq<char>, Seq<char>)>)
    decreases w.frames.len(), if w.frames.len() > 0 { w.frames.last().items.len() } else { 0 },
{
    if w.frames.len() == 0 {
        (w, None)
    } else if w.frames.last().items.len() == 0 {
        walk(SWalk { frames: w.frames.drop_last(), out: w.out, entered: w.entered, pending: w.pending })
    } else {
        let top = w.frames.last();
        let x = top.items[0];
        let w1 = drop_first_item(w);
        match x {
            SModuleItem::Import(imp) => (
                SWalk { frames: w1.frames, out: w1.out, entered: w1.entered, pending: Some(imp) },
                Some((top.path, search_source(imp.source))),
            ),
            _ => walk(if top.keep {
                SWalk { frames: w1.frames, out: w1.out.push(x), entered: w1.entered, pending: w1.pending }
            } else {
                w1
            }),
        }
    }
}

// ------------------------------------------------------------------
// Laws
// ------------------------------------------------------------------

/// An import of a `cap:` package is looked up like a local import.
pub proof fn law_cap_sources_are_local(s: Seq<char>)
    requires
        has_prefix(s, seq!['c', 'a', 'p', ':']),
    ensures
        is_local_source(search_source(s)),
{
    reveal_strlit("cap/");
    let r = search_source(s);
    assert(r.subrange(0, 4) =~= "cap/"@);
}

/// The search path of a search path is itself.
pub proof fn law_search_source_idempotent(s: Seq<char>)
    ensures
        search_source(search_source(s)) == search_source(s),
{
    let r = search_source(s);
    if has_prefix(s, seq!['c', 'a', 'p', ':']) {
        assert(r.subrange(0, 4)[3] == '/');
        assert(!has_prefix(r, seq!['c', 'a', 'p', ':']));
    }
}

/// Walking to the next import only adds to the items collected, and enters no file.
pub proof fn law_walk_keeps_collected(w: SWalk)
    ensures
        walk(w).0.out.len() >= w.out.len(),
        walk(w).0.out.subrange(0, w.out.len() as int) == w.out,
        walk(w).0.entered == w.entered,
    decreases w.frames.len(), if w.frames.len() > 0 { w.frames.last().items.len() } else { 0 },
{
    if w.frames.len() == 0 {
        assert(w.out.subrange(0, w.out.len() as int) =~= w.out);
    } else if w.frames.last().items.len() == 0 {
        law_walk_keeps_collected(SWalk { frames: w.frames.drop_last(), out: w.out, entered: w.entered, pending: w.pending });
    } else {
        let top = w.frames.last();
        let x = top.items[0];
        let w1 = drop_first_item(w);
        assert(w1.frames.len() == w.frames.len());
        assert(w1.frames.last().items.len() < w.frames.last().items.len());
        match x {
            SModuleItem::Import(_) => {
                assert(w.out.subrange(0, w.out.len() as int) =~= w.out);
            },
            _ => {
                let w2 = if top.keep {
                    SWalk { frames: w1.frames, out: w1.out.push(x), entered: w1.entered, pending: w1.pending }
                } else {
                    w1
                };
                law_walk_keeps_collected(w2);
                assert(walk(w2).0.out.subrange(0, w.out.len() as int) =~= walk(w2).0.out.subrange(0, w2.out.len() as int).subrange(0, w.out.len() as int));
                assert(w2.out.subrange(0, w.out.len() as int) =~= w.out);
            },
        }
    }
}

/// Entering files through `visit` enters no file twice: the files entered stay
/// free of repeats, whatever file is visited next.
pub proof fn law_visit_enters_once(entered: Seq<Seq<char>>, c: Seq<char>)
    requires
        entered.no_duplicates(),
    ensures
        (if entered.contains(c) { entered } else { entered.push(c) }).no_duplicates(),
{
    if !entered.contains(c) {
        let e = entered.push(c);
        assert forall|i: int, j: int| 0 <= i < e.len() && 0 <= j < e.len() && i != j implies e[i] != e[j] by {
            if i == entered.len() {
                assert(entered[j] == e[j]);
            } else if j == entered.len() {
                assert(entered[i] == e[i]);
            }
        }
    }
}

/// A file whose items are being walked.
pub struct ImportFrame {
    path: std::string::String,
    items: Vec<ModuleItem>,
    keep_others: bool,
}

/// The depth-first walk over the imports of a file and of the files they lead to.
pub struct ImportWalk {
    frames: Vec<ImportFrame>,
    items: Vec<ModuleItem>,
    processed: Vec<std::string::String>,
    pending: Option<ImportStmt>,
}

pub closed spec fn view_frame(f: ImportFrame) -> SFrame {
    SFrame { path: f.path@, items: view_module_item_seq(f.items@), keep: f.keep_others }
}

impl View for ImportWalk {
    type V = SWalk;

    closed spec fn view(&self) -> SWalk {
        SWalk {
            frames: Seq::new(self.frames@.len(), |i: int| view_frame(self.frames@[i])),
            out: view_module_item_seq(self.items@),
            entered: view_string_seq(self.processed@),
            pending: match self.pending {
                Some(imp) => Some(view_import_stmt(imp)),
                None => None,
            },
        }
    }
}

impl ImportWalk {
    pub fn new() -> (r: Self)
        ensures
            r@ == (SWalk { frames: Seq::empty(), out: Seq::empty(), entered: Seq::empty(), pending: None }),
    {
        let r = ImportWalk { frames: Vec::new(), items: Vec::new(), processed: Vec::new(), pending: None };
        proof {
            assert(view_module_item_seq(Seq::<ModuleItem>::empty()) =~= Seq::<SModuleItem>::empty());
            assert(view_string_seq(Seq::<std::string::String>::empty()) =~= Seq::<Seq<char>>::empty());
            assert(r@.frames =~= Seq::<SFrame>::empty());
        }
        r
    }

    /// The canonical paths of the files entered so far, in order.
    pub fn entered(&self) -> (r: &Vec<std::string::String>)
        ensures
            view_string_seq(r@) == self@.entered,
    {
        &self.processed
    }

    /// Records that the file with canonical path `canonical` is entered.
    pub fn mark(&mut self, canonical: std::string::String)
        ensures
            final(self)@ == (SWalk { entered: old(self)@.entered.push(canonical@), ..old(self)@ }),
    {
        let ghost c = canonical@;
        proof { lemma_view_string_seq_push(self.processed@, canonical); }
        self.processed.push(canonical);
        proof {
            assert(self@.frames =~= old(self)@.frames);
        }
    }

    /// Enters the file with canonical path `canonical` unless it was entered
    /// before; says whether it was entered now.
    pub fn visit(&mut self, canonical: std::string::String) -> (r: bool)
        ensures
            r == !old(self)@.entered.contains(canonical@),
            final(self)@ == (if r {
                SWalk { entered: old(self)@.entered.push(canonical@), ..old(self)@ }
            } else {
                old(self)@
            }),
    {
        proof { lemma_view_string_seq_index(self.processed@); }
        let ghost vp = view_string_seq(self.processed@);
        let mut i: usize = 0;
        while i < self.processed.len()
            invariant
                i <= self.processed@.len(),
                vp == view_string_seq(self.processed@),
                vp.len() == self.processed@.len(),
                forall|j: int| 0 <= j < self.processed@.len() ==> #[trigger] vp[j] == self.processed@[j]@,
                forall|j: int| 0 <= j < i ==> vp[j] != canonical@,
            decreases self.processed@.len() - i,
        {
            if crate::text::string_eq(&self.processed[i], &canonical) {
                assert(vp[i as int] == canonical@);
                return false;
            }
            i = i + 1;
        }
        assert(!vp.contains(canonical@));
        self.mark(canonical);
        true
    }

    /// Starts walking the items of `module`, the file at `path`; with
    /// `keep_others`, items other than imports are collected.
    pub fn enter(&mut self, path: std::string::String, module: Module, keep_others: bool)
        ensures
            final(self)@ == (SWalk {
                frames: old(self)@.frames.push(SFrame { path: path@, items: view_module(module).body, keep: keep_others }),
                ..old(self)@
            }),
    {
        let ghost f = SFrame { path: path@, items: view_module(module).body, keep: keep_others };
        self.frames.push(ImportFrame { path, items: module.body, keep_others });
        proof {
            assert(self@.frames =~= old(self)@.frames.push(f));
        }
    }

    /// Walks to the next import, collecting what is passed over where its file
    /// keeps it; gives the path of the file that holds the import and the path
    /// the import is looked up by, or `None` when the walk is over.
    pub fn next_import(&mut self) -> (r: Option<(std::string::String, std::string::String)>)
        ensures
            final(self)@ == walk(old(self)@).0,
            match walk(old(self)@).1 {
                Some((p, s)) => r is Some && r->Some_0.0@ == p && r->Some_0.1@ == s,
                None => r is None,
            },
    {
        loop
            invariant
                walk(old(self)@) == walk(self@),
            decreases self@.frames.len(), if self@.frames.len() > 0 { self@.frames.last().items.len() } else { 0 },
        {
            let n = self.frames.len();
            if n == 0 {
                return None;
            }
            if self.frames[n - 1].items.len() == 0 {
                let ghost before = self@;
                let _ = self.frames.pop();
                proof {
                    assert(self@.frames =~= before.frames.drop_last());
                }
            } else {
                let ghost before = self@;
                let mut top = self.frames.pop().unwrap();
                let ghost old_items = top.items@;
                proof { lemma_view_module_item_seq_index(old_items); }
                let x = top.items.remove(0);
                proof {
                    lemma_view_module_item_seq_index(top.items@);
                    assert(view_module_item_seq(top.items@) =~= view_module_item_seq(old_items).drop_first());
                }
                let path = top.path.clone();
                let keep = top.keep_others;
                self.frames.push(top);
                proof {
                    assert(self@.frames =~= drop_first_item(before).frames);
                    assert(view_module_item(x) == before.frames.last().items[0]);
                }
                match x {
                    ModuleItem::Import(imp) => {
                        let src = search_path_of(imp.source.as_str());
                        self.pending = Some(imp);
                        return Some((path, src));
                    },
                    other => {
                        if keep {
                            proof { lemma_view_module_item_seq_push(self.items@, other); }
                            self.items.push(other);
                        }
                    },
                }
            }
        }
    }

    /// Takes back the outcome of looking up the awaited import: when no file
    /// was found (`found` is false), the import itself is collected.
    pub fn import_result(&mut self, found: bool)
        ensures
            final(self)@ == (SWalk {
                out: if !found && old(self)@.pending is Some {
                    old(self)@.out.push(SModuleItem::Import(old(self)@.pending->Some_0))
                } else {
                    old(self)@.out
                },
                pending: None,
                ..old(self)@
            }),
    {
        let pending = self.pending.take();
        match pending {
            Some(imp) => {
                if !found {
                    let item = ModuleItem::Import(imp);
                    proof { lemma_view_module_item_seq_push(self.items@, item); }
                    self.items.push(item);
                }
            },
            None => {},
        }
        proof {
            assert(self@.frames =~= old(self)@.frames);
        }
    }

    /// The items collected.
    pub fn finish(self) -> (r: Vec<ModuleItem>)
        ensures
            view_module_item_seq(r@) == self@.out,
    {
        self.items
    }
}

} // verus!
