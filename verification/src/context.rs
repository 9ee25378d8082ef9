//! The compilation context: the source files read so far and the modules by name.

use vstd::prelude::*;

use crate::module::{Module, ModuleMap};
use crate::parse_context::{byte_slice, byte_slice_upto};
use crate::span::SourceId;
use crate::storage::Storage;
use crate::text::{char_len_utf8, lemma_utf8_len_mono, lemma_utf8_len_step, push_char, utf8_len};

verus! {

/// The byte offsets at which the lines of `s` begin, looking at its first `n`
/// characters: 0, then the offset after each newline.
pub open spec fn line_starts_upto(s: Seq<char>, n: int) -> Seq<u32>
    decreases n,
{
    if n <= 0 {
        seq![0u32]
    } else {
        let prev = line_starts_upto(s, n - 1);
        if s[n - 1] == '\n' {
            prev.push((utf8_len(s.take(n - 1)) + 1) as u32)
        } else {
            prev
        }
    }
}

/// The byte offsets at which the lines of `s` begin.
pub open spec fn line_starts_of(s: Seq<char>) -> Seq<u32> {
    line_starts_upto(s, s.len() as int)
}

/// A source file: its path, its text, and where its lines begin.
#[derive(Debug)]
pub struct Source {
    pub path: String,
    pub content: String,
    /// The byte positions where each line starts.
    pub line_starts: Vec<u32>,
}

/// The number of bytes in the UTF-8 encoding of `s`.
pub fn utf8_length(s: &str) -> (r: usize)
    requires
        utf8_len(s@) <= usize::MAX,
    ensures
        r == utf8_len(s@),
{
    let chars = crate::text::str_chars(s);
    let ghost t = chars@;
    let mut pos: usize = 0;
    let mut i: usize = 0;
    proof {
        assert(t.take(0) =~= Seq::<char>::empty());
        assert(t.take(t.len() as int) =~= t);
    }
    while i < chars.len()
        invariant
            t == chars@,
            t == s@,
            t.take(t.len() as int) == t,
            utf8_len(t) <= usize::MAX,
            i <= t.len(),
            pos == utf8_len(t.take(i as int)),
        decreases t.len() - i,
    {
        proof {
            lemma_utf8_len_step(t, i as int);
            lemma_utf8_len_mono(t, i + 1, t.len() as int);
        }
        pos = pos + char_len_utf8(chars[i]);
        i = i + 1;
    }
    pos
}

impl Source {
    /// The line table matches the text, whose size fits the table's offsets.
    pub open spec fn wf(&self) -> bool {
        &&& utf8_len(self.content@) < u32::MAX
        &&& self.line_starts@ == line_starts_of(self.content@)
    }

    /// The source file `path` holding `content`.
    pub fn from_content(path: String, content: String) -> (r: Self)
        requires
            utf8_len(content@) < u32::MAX,
        ensures
            r.wf(),
            r.path@ == path@,
            r.content@ == content@,
    {
        let chars = crate::text::str_chars(content.as_str());
        let ghost t = chars@;
        let mut line_starts: Vec<u32> = vec![0];
        let mut pos: usize = 0;
        let mut i: usize = 0;
        proof {
            assert(t.take(0) =~= Seq::<char>::empty());
            assert(t.take(t.len() as int) =~= t);
            assert(line_starts@ =~= line_starts_upto(t, 0));
        }
        while i < chars.len()
            invariant
                t == chars@,
                t == content@,
                t.take(t.len() as int) == t,
                utf8_len(t) < u32::MAX,
                i <= t.len(),
                pos == utf8_len(t.take(i as int)),
                line_starts@ == line_starts_upto(t, i as int),
            decreases t.len() - i,
        {
            proof {
                lemma_utf8_len_step(t, i as int);
                lemma_utf8_len_mono(t, i + 1, t.len() as int);
            }
            let c = chars[i];
            let w = char_len_utf8(c);
            if c == '\n' {
                line_starts.push((pos + 1) as u32);
            }
            pos = pos + w;
            i = i + 1;
        }
        Source { path, content, line_starts }
    }

    /// The text of line `line_idx` (counted from 0), without its newline, as a new string:
    /// the bytes from the line's start up to the byte before the next line's start (or to
    /// the end of the text for the last line).  Every start after the first must be past
    /// the first byte, as it is in a table built from the text.
    pub fn get_line(&self, line_idx: usize) -> (r: Option<String>)
        requires
            utf8_len(self.content@) <= usize::MAX,
            forall|k: int| 1 <= k < self.line_starts@.len() ==> #[trigger] self.line_starts@[k] >= 1,
        ensures
            match r {
                Some(line) => line_idx < self.line_starts@.len() && line@ == byte_slice(
                    self.content@,
                    self.line_starts@[line_idx as int] as int,
                    if line_idx + 1 < self.line_starts@.len() {
                        self.line_starts@[line_idx + 1] - 1
                    } else {
                        utf8_len(self.content@) as int
                    },
                ),
                None => line_idx >= self.line_starts@.len(),
            },
    {
        if line_idx >= self.line_starts.len() {
            return None;
        }
        let start = self.line_starts[line_idx] as usize;
        let end: usize = if line_idx + 1 < self.line_starts.len() {
            (self.line_starts[line_idx + 1] - 1) as usize
        } else {
            utf8_length(self.content.as_str())
        };
        let chars = crate::text::str_chars(self.content.as_str());
        let ghost t = chars@;
        let mut out = String::new();
        let mut pos: usize = 0;
        let mut i: usize = 0;
        proof {
            assert(t.take(0) =~= Seq::<char>::empty());
            assert(t.take(t.len() as int) =~= t);
            assert(out@ =~= Seq::<char>::empty());
        }
        while i < chars.len()
            invariant
                t == chars@,
                t == self.content@,
                t.take(t.len() as int) == t,
                utf8_len(t) <= usize::MAX,
                i <= t.len(),
                pos == utf8_len(t.take(i as int)),
                out@ == byte_slice_upto(t, i as int, start as int, end as int),
            decreases t.len() - i,
        {
            proof {
                lemma_utf8_len_step(t, i as int);
                lemma_utf8_len_mono(t, i + 1, t.len() as int);
            }
            let c = chars[i];
            if start <= pos && pos < end {
                push_char(&mut out, c);
            }
            pos = pos + char_len_utf8(c);
            i = i + 1;
        }
        Some(out)
    }
}

/// Every line start after the first lies past a newline, so it is at least 1.
pub proof fn lemma_line_starts_positive(s: Seq<char>, n: int, k: int)
    requires
        0 <= n <= s.len(),
        utf8_len(s) < u32::MAX,
        1 <= k < line_starts_upto(s, n).len(),
    ensures
        line_starts_upto(s, n)[k] >= 1,
        line_starts_upto(s, n)[0] == 0,
    decreases n,
{
    if n > 0 {
        let prev = line_starts_upto(s, n - 1);
        if k < prev.len() {
            lemma_line_starts_positive(s, n - 1, k);
        } else {
            crate::text::lemma_utf8_len_mono(s, n - 1, s.len() as int);
            assert(s.take(s.len() as int) =~= s);
        }
        if prev.len() >= 1 && k < prev.len() {
        }
        lemma_line_starts_first(s, n);
    }
}

proof fn lemma_line_starts_first(s: Seq<char>, n: int)
    ensures
        line_starts_upto(s, n).len() >= 1,
        line_starts_upto(s, n)[0] == 0,
    decreases n,
{
    if n > 0 {
        lemma_line_starts_first(s, n - 1);
    }
}

/// Identifies a module of a compilation context.
#[derive(Debug, Clone, Copy, PartialEq, Eq, Structural)]
pub struct ModuleId(pub usize);

/// The source files and modules of one compilation.
#[derive(Debug)]
pub struct Context {
    sources: Storage<String, Source>,
    modules: ModuleMap,
}

impl Context {
    pub closed spec fn spec_sources(&self) -> Seq<Source> {
        self.sources.pool@
    }

    pub closed spec fn spec_modules(&self) -> Seq<Module> {
        self.modules.pool@
    }

    /// The ids registered for source paths.
    pub closed spec fn source_ids(&self) -> Map<Seq<char>, usize> {
        self.sources.key_map()
    }

    /// The ids registered for module names.
    pub closed spec fn module_ids(&self) -> Map<Seq<char>, usize> {
        self.modules.key_map()
    }

    /// The key tables are well formed and point into the pools.
    pub closed spec fn wf(&self) -> bool {
        &&& self.sources.wf()
        &&& self.modules.wf()
        &&& forall|k: Seq<char>| #[trigger] self.sources.key_map().contains_key(k) ==> self.sources.key_map()[k] < self.sources.pool@.len()
        &&& forall|k: Seq<char>| #[trigger] self.modules.key_map().contains_key(k) ==> self.modules.key_map()[k] < self.modules.pool@.len()
    }

    pub fn new() -> (r: Self)
        ensures
            r.wf(),
            r.spec_sources().len() == 0,
            r.spec_modules().len() == 0,
    {
        Context { sources: Storage::new(), modules: Storage::new() }
    }

    /// The id of the source registered under `canon_path`, if any.
    pub fn lookup_source(&self, canon_path: &String) -> (r: Option<SourceId>)
        requires
            self.wf(),
        ensures
            r == if self.source_ids().contains_key(canon_path@) {
                Some(SourceId(self.source_ids()[canon_path@]))
            } else {
                None
            },
            r matches Some(id) ==> id.0 < self.spec_sources().len(),
    {
        match self.sources.get_by_id_key(canon_path) {
            Some(id) => Some(SourceId(id)),
            None => None,
        }
    }

    /// The number of sources read so far.
    pub fn source_count(&self) -> (r: usize)
        ensures
            r == self.spec_sources().len(),
    {
        self.sources.pool.len()
    }

    /// The number of modules so far.
    pub fn module_count(&self) -> (r: usize)
        ensures
            r == self.spec_modules().len(),
    {
        self.modules.pool.len()
    }

    /// Stores the text `content` read from `path` as a new source (unless a source is
    /// registered under `path`, which is then replaced at its id) and returns its id.
    pub fn add_source(&mut self, path: String, content: String) -> (r: SourceId)
        requires
            old(self).wf(),
            old(self).spec_sources().len() < usize::MAX,
            utf8_len(content@) < u32::MAX,
        ensures
            final(self).wf(),
            r.0 < final(self).spec_sources().len(),
            r.0 == if old(self).source_ids().contains_key(path@) {
                old(self).source_ids()[path@]
            } else {
                old(self).spec_sources().len() as usize
            },
            final(self).spec_sources() == old(self).spec_sources().insert(
                r.0 as int,
                final(self).spec_sources()[r.0 as int],
            ),
            final(self).spec_sources()[r.0 as int].content@ == content@,
            final(self).spec_sources()[r.0 as int].path@ == path@,
            final(self).spec_sources()[r.0 as int].wf(),
            final(self).source_ids() == old(self).source_ids(),
            final(self).spec_modules() == old(self).spec_modules(),
            final(self).module_ids() == old(self).module_ids(),
    {
        let new_source = Source::from_content(path.clone(), content);
        let id = self.sources.put(path, new_source);
        SourceId(id)
    }

    /// The id of the module named `name`, added empty when there is none.
    pub fn get_or_put_new_module(&mut self, name: String) -> (r: ModuleId)
        requires
            old(self).wf(),
            old(self).spec_modules().len() < usize::MAX,
        ensures
            final(self).wf(),
            r.0 < final(self).spec_modules().len(),
            final(self).spec_sources() == old(self).spec_sources(),
            final(self).source_ids() == old(self).source_ids(),
            final(self).module_ids() == old(self).module_ids(),
            if old(self).module_ids().contains_key(name@) {
                &&& r.0 == old(self).module_ids()[name@]
                &&& final(self).spec_modules() == old(self).spec_modules()
            } else {
                &&& r.0 == old(self).spec_modules().len()
                &&& final(self).spec_modules().len() == old(self).spec_modules().len() + 1
                &&& final(self).spec_modules().drop_last() == old(self).spec_modules()
                &&& final(self).spec_modules().last().symbols.pool@.len() == 0
                &&& final(self).spec_modules().last().types.pool@.len() == 0
                &&& final(self).spec_modules().last().scopes.pool@.len() == 1
            },
    {
        match self.modules.get_by_id_key(&name) {
            Some(id) => ModuleId(id),
            None => {
                let new_mod = Module::new();
                ModuleId(self.modules.put(name, new_mod))
            },
        }
    }

    /// The text of source `id`.
    pub fn get_source(&self, id: SourceId) -> (r: Option<&String>)
        ensures
            r == if id.0 < self.spec_sources().len() {
                Some(&self.spec_sources()[id.0 as int].content)
            } else {
                None
            },
    {
        if id.0 < self.sources.pool.len() {
            Some(&self.sources.pool[id.0].content)
        } else {
            None
        }
    }

    pub fn get_source_file(&self, id: SourceId) -> (r: Option<&Source>)
        ensures
            r == if id.0 < self.spec_sources().len() {
                Some(&self.spec_sources()[id.0 as int])
            } else {
                None
            },
    {
        if id.0 < self.sources.pool.len() {
            Some(&self.sources.pool[id.0])
        } else {
            None
        }
    }

    /// Mutable access to module `id`.
    pub fn get_module(&mut self, id: ModuleId) -> (r: Option<&mut Module>)
        ensures
            id.0 < old(self).spec_modules().len() ==> (r is Some && *r->0 == old(
                self).spec_modules()[id.0 as int] && final(self).spec_modules() == old(
                self).spec_modules().update(id.0 as int, *final(r->0))),
            id.0 >= old(self).spec_modules().len() ==> r is None && *final(self) == *old(self),
            final(self).spec_sources() == old(self).spec_sources(),
            final(self).source_ids() == old(self).source_ids(),
            final(self).module_ids() == old(self).module_ids(),
    {
        if id.0 < self.modules.pool.len() {
            Some(&mut self.modules.pool[id.0])
        } else {
            None
        }
    }
}

} // verus!
