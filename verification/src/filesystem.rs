//! The virtual filesystem: an immutable tree of entries with name-indexed
//! child lookup, recursive path lookup with a legacy `old/` fallback, and
//! the metadata renderings the commands need.

use vstd::prelude::*;

use crate::utils::{
    child_url, dec_str, human_size, human_size_spec, resolve_path_files, resolved_segs, str_eq,
    str_contains_char, u64_to_string, push_char,
};

verus! {

/// A node of the virtual filesystem.  `url` is the canonical path of the
/// node from the root (the root itself has the empty url); `entries` is only
/// populated for directories.
#[derive(Debug)]
pub struct Entry {
    pub filename: String,
    pub url: String,
    pub size: u64,
    pub modified: u64,
    pub is_dir: bool,
    pub entries: Vec<Entry>,
}

/// A name a tree node may carry: non-empty, not a dot segment, and free of
/// separators, so that canonical paths stay canonical.
pub open spec fn valid_name(name: Seq<char>) -> bool {
    &&& name.len() > 0
    &&& name != "."@
    &&& name != ".."@
    &&& !name.contains('/')
}

/// The first entry of `s` carrying `name`, if any.
pub open spec fn child_named(s: Seq<Entry>, name: Seq<char>) -> Option<Entry>
    decreases s.len(),
{
    if s.len() == 0 {
        Option::None
    } else if s[0].filename@ == name {
        Option::Some(s[0])
    } else {
        child_named(s.skip(1), name)
    }
}

impl Entry {
    /// Well-formedness of the tree: children carry distinct valid names,
    /// their urls extend the parent's url by their name, only directories
    /// have children, and every subtree is well-formed in turn.
    pub open spec fn wf(self) -> bool
        decreases self,
    {
        &&& (!self.is_dir ==> self.entries@.len() == 0)
        &&& (forall|i: int, j: int|
            0 <= i < j < self.entries@.len() ==> (#[trigger] self.entries@[i]).filename@ != (
            #[trigger] self.entries@[j]).filename@)
        &&& (forall|i: int|
            0 <= i < self.entries@.len() ==> valid_name(
                (#[trigger] self.entries@[i]).filename@,
            ))
        &&& (forall|i: int|
            0 <= i < self.entries@.len() ==> (#[trigger] self.entries@[i]).url@ == child_url(
                self.url@,
                self.entries@[i].filename@,
            ))
        &&& (forall|i: int| 0 <= i < self.entries@.len() ==> (#[trigger] self.entries@[i]).wf())
    }

    /// The direct child carrying `name`, if any.
    pub open spec fn child(self, name: Seq<char>) -> Option<Entry> {
        child_named(self.entries@, name)
    }

    /// One lookup step with the legacy fallback: a direct child wins; when
    /// the name misses, a sibling directory named `old` is consulted for the
    /// same name before the step fails.
    pub open spec fn lookup_step(self, name: Seq<char>) -> Option<Entry> {
        match self.child(name) {
            Option::Some(e) => Option::Some(e),
            Option::None => match self.child("old"@) {
                Option::Some(o) => o.child(name),
                Option::None => Option::None,
            },
        }
    }

    /// The canonical match always wins: the fallback is consulted only
    /// when the direct lookup misses, never checked alongside it.
    pub proof fn lemma_direct_child_wins(self, name: Seq<char>)
        requires
            self.child(name) is Some,
        ensures
            self.lookup_step(name) == self.child(name),
    {
    }

    /// Recursive lookup of canonical segments, one step per segment.
    pub open spec fn lookup_segs(self, segs: Seq<Seq<char>>) -> Option<Entry>
        decreases segs.len(),
    {
        if segs.len() == 0 {
            Option::Some(self)
        } else {
            match self.lookup_step(segs[0]) {
                Option::None => Option::None,
                Option::Some(e) => e.lookup_segs(segs.skip(1)),
            }
        }
    }

    /// Lookup of a raw path string: the path is first made canonical.
    pub open spec fn lookup(self, path: Seq<char>) -> Option<Entry> {
        self.lookup_segs(resolved_segs(path))
    }

    /// The direct child carrying `name`, if any.
    fn find_child<'a>(&'a self, name: &str) -> (r: Option<&'a Entry>)
        ensures
            match r {
                Option::Some(e) => self.child(name@) == Option::Some(*e),
                Option::None => self.child(name@) is None,
            },
    {
        let n = self.entries.len();
        let mut i: usize = 0;
        proof {
            assert(self.entries@.skip(0) =~= self.entries@);
        }
        while i < n
            invariant
                i <= n,
                n == self.entries@.len(),
                child_named(self.entries@, name@) == child_named(
                    self.entries@.skip(i as int),
                    name@,
                ),
            decreases n - i,
        {
            let ghost pre = self.entries@.skip(i as int);
            proof {
                assert(pre[0] == self.entries@[i as int]);
                assert(pre.skip(1) =~= self.entries@.skip(i + 1 as int));
            }
            if str_eq(self.entries[i].filename.as_str(), name) {
                return Option::Some(&self.entries[i]);
            }
            i += 1;
        }
        proof {
            assert(self.entries@.skip(i as int) =~= Seq::<Entry>::empty());
        }
        Option::None
    }

    /// Walk the canonical segments `files[from..]` down from `self`,
    /// following the fallback rule at every step.
    fn get_file_rec<'a>(&'a self, files: &Vec<String>, from: usize) -> (r: Option<&'a Entry>)
        requires
            from < files@.len(),
        ensures
            match r {
                Option::Some(e) => self.lookup_segs(files.deep_view().skip(from as int))
                    == Option::Some(*e),
                Option::None => self.lookup_segs(files.deep_view().skip(from as int)) is None,
            },
        decreases files@.len() - from,
    {
        let ghost segs = files.deep_view().skip(from as int);
        proof {
            assert(files.deep_view().len() == files@.len());
            assert(segs.len() > 0);
            assert(segs[0] == files.deep_view()[from as int]);
            assert(files.deep_view()[from as int] == files@[from as int]@);
            assert(segs.skip(1) =~= files.deep_view().skip(from + 1 as int));
        }
        let n = files.len();
        let seg = &files[from];
        let step = match self.find_child(seg.as_str()) {
            Option::Some(e) => Option::Some(e),
            Option::None => match self.find_child("old") {
                Option::Some(o) => o.find_child(seg.as_str()),
                Option::None => Option::None,
            },
        };
        match step {
            Option::None => {
                proof {
                    assert(self.lookup_step(segs[0]) is None);
                    assert(self.lookup_segs(segs) is None);
                }
                Option::None
            },
            Option::Some(e) => {
                proof {
                    assert(self.lookup_step(segs[0]) == Option::Some(*e));
                }
                if from + 1 == n {
                    proof {
                        assert(segs.skip(1).len() == 0);
                        assert(segs.skip(1) =~= Seq::<Seq<char>>::empty());
                        assert(e.lookup_segs(segs.skip(1)) == Option::Some(*e));
                        assert(self.lookup_segs(segs) == Option::Some(*e));
                    }
                    Option::Some(e)
                } else {
                    let rec = e.get_file_rec(files, from + 1);
                    proof {
                        match rec {
                            Option::Some(x) => {
                                assert(e.lookup_segs(segs.skip(1)) == Option::Some(*x));
                                assert(self.lookup_segs(segs) == Option::Some(*x));
                            },
                            Option::None => {
                                assert(e.lookup_segs(segs.skip(1)) is None);
                                assert(self.lookup_segs(segs) is None);
                            },
                        }
                    }
                    rec
                }
            },
        }
    }

    /// Look a path up in the tree.  The empty canonical path is the node
    /// itself; a failed lookup reports the offending path.
    pub fn get_file<'a>(&'a self, path_str: &str) -> (r: Result<&'a Entry, String>)
        ensures
            match r {
                Ok(e) => self.lookup(path_str@) == Option::Some(*e),
                Err(m) => self.lookup(path_str@) is None && m@ == path_str@,
            },
    {
        let files = resolve_path_files(path_str);
        if files.len() == 0 {
            proof {
                assert(resolved_segs(path_str@).len() == 0);
            }
            return Ok(self);
        }
        match self.get_file_rec(&files, 0) {
            Option::Some(e) => {
                proof {
                    assert(files.deep_view().skip(0) =~= files.deep_view());
                }
                Ok(e)
            },
            Option::None => {
                proof {
                    assert(files.deep_view().skip(0) =~= files.deep_view());
                }
                Err(path_str.to_owned())
            },
        }
    }

    /// The size rendered as a decimal byte count, or in human units.
    pub fn get_size(&self, human: bool) -> (r: String)
        ensures
            r@ == if human {
                human_size_spec(self.size as nat)
            } else {
                dec_str(self.size as nat)
            },
    {
        if human {
            human_size(self.size)
        } else {
            u64_to_string(self.size)
        }
    }

    /// Join a path onto this node's canonical path: an argument with a
    /// leading slash stands alone, anything else is appended after a `/`.
    pub fn join(&self, path_str: &str) -> (r: String)
        ensures
            r@ == joined_path(self.url@, path_str@),
    {
        join_path(self.url.as_str(), path_str)
    }
}

/// The modification-date text for a unix timestamp, as chrono renders
/// `"%b %e %H:%M"` for it: a function of the timestamp alone.
pub uninterp spec fn date_str_of(ts: u64) -> Seq<char>;

/// Whether chrono can place the timestamp at all: `from_timestamp` accepts
/// a fixed range of seconds, so this too is a function of the timestamp
/// alone.
pub uninterp spec fn date_str_ok(ts: u64) -> bool;

/// Relies on chrono's `DateTime::<Utc>::from_timestamp` and the `format`
/// renderer: with the fixed format `"%b %e %H:%M"` in UTC the text is a
/// function of the timestamp alone (month names are always the English
/// abbreviations), and `from_timestamp` returns `None` exactly on seconds
/// whose date falls outside chrono's representable range.
#[verifier::external_body]
fn format_date(ts: u64) -> (r: Option<String>)
    ensures
        match r {
            Option::Some(s) => date_str_ok(ts) && s@ == date_str_of(ts),
            Option::None => !date_str_ok(ts),
        },
{
    match chrono::DateTime::<chrono::Utc>::from_timestamp(ts as i64, 0) {
        Some(dt) => Some(dt.format("%b %e %H:%M").to_string()),
        None => None,
    }
}

/// The date text a node renders: chrono's rendering, or `"?"` for a
/// timestamp outside chrono's range.
pub open spec fn date_text(ts: u64) -> Seq<char> {
    if date_str_ok(ts) {
        date_str_of(ts)
    } else {
        "?"@
    }
}

impl Entry {
    /// The modification date rendered as `"%b %e %H:%M"`; a timestamp the
    /// date library cannot place renders as `"?"`.
    pub fn get_date_str(&self) -> (r: String)
        ensures
            r@ == date_text(self.modified),
    {
        match format_date(self.modified) {
            Option::Some(s) => s,
            Option::None => "?".to_owned(),
        }
    }
}

/// The text contents backing the files of the tree, keyed by canonical
/// path.  The tree itself only carries metadata; the host fills this store.
pub struct ContentStore {
    pub items: Vec<(String, String)>,
}

/// The first text stored under `url`, if any.
pub open spec fn store_lookup(items: Seq<(String, String)>, url: Seq<char>) -> Option<Seq<char>>
    decreases items.len(),
{
    if items.len() == 0 {
        Option::None
    } else if items[0].0@ == url {
        Option::Some(items[0].1@)
    } else {
        store_lookup(items.skip(1), url)
    }
}

impl ContentStore {
    /// The text stored under `url`, if any.
    pub open spec fn content_of(self, url: Seq<char>) -> Option<Seq<char>> {
        store_lookup(self.items@, url)
    }

    /// An empty store.
    pub fn new() -> (r: ContentStore)
        ensures
            r.items@.len() == 0,
    {
        ContentStore { items: Vec::new() }
    }

    /// Store `text` under `url`.
    pub fn add(&mut self, url: String, text: String)
        ensures
            final(self).items@ == old(self).items@.push((url, text)),
    {
        self.items.push((url, text));
    }

    /// The text stored under `url`, if any.
    pub fn get<'a>(&'a self, url: &str) -> (r: Option<&'a String>)
        ensures
            match r {
                Option::Some(t) => self.content_of(url@) == Option::Some(t@),
                Option::None => self.content_of(url@) is None,
            },
    {
        let n = self.items.len();
        let mut i: usize = 0;
        proof {
            assert(self.items@.skip(0) =~= self.items@);
        }
        while i < n
            invariant
                i <= n,
                n == self.items@.len(),
                store_lookup(self.items@, url@) == store_lookup(self.items@.skip(i as int), url@),
            decreases n - i,
        {
            let ghost pre = self.items@.skip(i as int);
            proof {
                assert(pre[0] == self.items@[i as int]);
                assert(pre.skip(1) =~= self.items@.skip(i + 1 as int));
            }
            if str_eq(self.items[i].0.as_str(), url) {
                return Option::Some(&self.items[i].1);
            }
            i += 1;
        }
        proof {
            assert(self.items@.skip(i as int) =~= Seq::<(String, String)>::empty());
        }
        Option::None
    }
}

impl Entry {
    /// The text content backing this node, from the store.  A file that
    /// passed lookup but has no stored content reports its own path.
    pub fn load(&self, store: &ContentStore) -> (r: Result<String, String>)
        ensures
            match r {
                Ok(t) => store.content_of(self.url@) == Option::Some(t@),
                Err(m) => store.content_of(self.url@) is None && m@ == self.url@,
            },
    {
        match store.get(self.url.as_str()) {
            Option::Some(t) => Ok(t.clone()),
            Option::None => Err(self.url.clone()),
        }
    }

    /// Decide well-formedness of the whole tree, as `wf` states it.
    pub fn check_wf(&self) -> (r: bool)
        ensures
            r == self.wf(),
        decreases *self,
    {
        let n = self.entries.len();
        if !self.is_dir && n > 0 {
            return false;
        }
        let mut i: usize = 0;
        while i < n
            invariant
                i <= n,
                n == self.entries@.len(),
                !self.is_dir ==> n == 0,
                forall|a: int, b: int|
                    0 <= a < i && a < b < n ==> (#[trigger] self.entries@[a]).filename@ != (
                    #[trigger] self.entries@[b]).filename@,
                forall|a: int|
                    0 <= a < i ==> valid_name((#[trigger] self.entries@[a]).filename@),
                forall|a: int|
                    0 <= a < i ==> (#[trigger] self.entries@[a]).url@ == child_url(
                        self.url@,
                        self.entries@[a].filename@,
                    ),
                forall|a: int| 0 <= a < i ==> (#[trigger] self.entries@[a]).wf(),
            decreases n - i,
        {
            let e = &self.entries[i];
            let name = e.filename.as_str();
            if name.unicode_len() == 0 || str_eq(name, ".") || str_eq(name, "..")
                || str_contains_char(name, '/') {
                proof {
                    assert(!valid_name(self.entries@[i as int].filename@));
                }
                return false;
            }
            let expect = child_url_string(self.url.as_str(), name);
            if !str_eq(e.url.as_str(), expect.as_str()) {
                proof {
                    assert(self.entries@[i as int].url@ != child_url(
                        self.url@,
                        self.entries@[i as int].filename@,
                    ));
                }
                return false;
            }
            let mut j: usize = i + 1;
            while j < n
                invariant
                    i < j <= n,
                    n == self.entries@.len(),
                    name@ == self.entries@[i as int].filename@,
                    forall|b: int|
                        i < b < j ==> (#[trigger] self.entries@[b]).filename@ != self.entries@[i
                            as int].filename@,
                decreases n - j,
            {
                if str_eq(self.entries[j].filename.as_str(), name) {
                    proof {
                        assert(self.entries@[i as int].filename@ == self.entries@[j
                            as int].filename@);
                    }
                    return false;
                }
                proof {
                    assert(self.entries@[j as int].filename@ != self.entries@[i
                        as int].filename@);
                }
                j += 1;
            }
            if !e.check_wf() {
                proof {
                    assert(!self.entries@[i as int].wf());
                }
                return false;
            }
            i += 1;
        }
        true
    }
}

/// The canonical path of a child of `base` named `name`.
pub fn child_url_string(base: &str, name: &str) -> (r: String)
    ensures
        r@ == child_url(base@, name@),
{
    if base.unicode_len() == 0 {
        name.to_owned()
    } else {
        let mut out = base.to_owned();
        push_char(&mut out, '/');
        out.append(name);
        proof {
            assert(out@ =~= base@ + seq!['/'] + name@);
        }
        out
    }
}

/// A base path and a user path combined before resolution: an absolute user
/// path (leading `/`) stands alone, a relative one is appended after a `/`.
pub open spec fn joined_path(base: Seq<char>, p: Seq<char>) -> Seq<char> {
    if p.len() > 0 && p[0] == '/' {
        p
    } else {
        base + seq!['/'] + p
    }
}

/// Join a base path and a user path, as `joined_path` describes.
pub fn join_path(base: &str, p: &str) -> (r: String)
    ensures
        r@ == joined_path(base@, p@),
{
    let pn = p.unicode_len();
    if pn > 0 && p.get_char(0) == '/' {
        p.to_owned()
    } else {
        let mut out = base.to_owned();
        push_char(&mut out, '/');
        out.append(p);
        proof {
            assert(out@ =~= base@ + seq!['/'] + p@);
        }
        out
    }
}

} // verus!
