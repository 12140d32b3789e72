//! COPY statements: finding them, the file names a copybook may have, and inlining
//! copybook texts that have been loaded.
use vstd::prelude::*;
use vstd::string::StringExecFns;

use crate::data_division::kw_at;
use crate::text::{
    at_exec, line_bounds, lower, pieces_of, push_char, push_chars, run,
    skip_class, std_lines, str_chars, string_of, strs, to_lowercase_string, to_uppercase_string,
    unicode_lower, unicode_upper, upper, upper_vec, ws_end, CharClass,
};

verus! {

/// `COPY name.` alone on line `l`: the bounds of the copybook name.
pub open spec fn copy_ref_bounds(l: Seq<char>) -> Option<(int, int)> {
    let a = ws_end(l, 0);
    let b = ws_end(l, a + 4);
    let e = b + run(l, b, CharClass::Name);
    let f = ws_end(l, e);
    if kw_at(l, a, "COPY"@) && b > a + 4 && e > b && f < l.len() && l[f] == '.' && ws_end(l, f + 1)
        == l.len() {
        Some((b, e))
    } else {
        None
    }
}

/// The copybook that line `l` copies, if it is a COPY statement.
pub open spec fn copy_ref(l: Seq<char>) -> Option<Seq<char>> {
    match copy_ref_bounds(l) {
        Some((b, e)) => Some(l.subrange(b, e)),
        None => None,
    }
}

/// The copybooks that the COPY statements of `ls` name, in order.
pub open spec fn copy_refs(ls: Seq<Seq<char>>) -> Seq<Seq<char>>
    decreases ls.len(),
{
    if ls.len() == 0 {
        Seq::empty()
    } else {
        copy_refs(ls.drop_last()) + match copy_ref(ls.last()) {
            Some(n) => seq![n],
            None => Seq::empty(),
        }
    }
}

fn copy_ref_exec(v: &Vec<char>, a0: usize, b0: usize) -> (r: Option<(usize, usize)>)
    requires
        a0 <= b0 <= v@.len(),
    ensures
        match r {
            Some((b, e)) => copy_ref(v@.subrange(a0 as int, b0 as int)) == Some(v@.subrange(b as int, e as int))
                && a0 <= b <= e <= b0,
            None => copy_ref(v@.subrange(a0 as int, b0 as int)) is None,
        },
{
    let l = crate::text::sub_vec(v, a0, b0);
    let up = upper_vec(&l);
    let n = l.len();
    let a = skip_class(&l, 0, CharClass::Space);
    if !at_exec(&up, a, "COPY") {
        return None;
    }
    proof {
        reveal_strlit("COPY");
    }
    let b = skip_class(&l, a + 4, CharClass::Space);
    let e = skip_class(&l, b, CharClass::Name);
    let f = skip_class(&l, e, CharClass::Space);
    if b > a + 4 && e > b && f < n && l[f] == '.' && skip_class(&l, f + 1, CharClass::Space) == n {
        proof {
            assert(l@.subrange(b as int, e as int) =~= v@.subrange(a0 + b, a0 + e));
        }
        Some((a0 + b, a0 + e))
    } else {
        None
    }
}

/// Resolves COPY statements by inlining loaded copybook texts.
pub struct CopybookResolver {
    /// Directories to search for copybook files.
    search_paths: Vec<String>,
    /// The copybooks loaded so far: name and text, each name once.
    cache: Vec<(String, String)>,
}

pub open spec fn pairs_of(v: Seq<(String, String)>) -> Seq<(Seq<char>, Seq<char>)> {
    v.map_values(|p: (String, String)| (p.0@, p.1@))
}

/// Each name occurs at most once.
pub open spec fn keys_unique(c: Seq<(Seq<char>, Seq<char>)>) -> bool {
    forall|i: int, j: int| 0 <= i < j < c.len() ==> (#[trigger] c[i]).0 != (#[trigger] c[j]).0
}

/// The text cached under `name`, if any.
pub open spec fn cached_text(c: Seq<(Seq<char>, Seq<char>)>, name: Seq<char>) -> Option<Seq<char>>
    decreases c.len(),
{
    if c.len() == 0 {
        None
    } else if c.last().0 == name {
        Some(c.last().1)
    } else {
        cached_text(c.drop_last(), name)
    }
}

impl CopybookResolver {
    pub closed spec fn paths(&self) -> Seq<Seq<char>> {
        strs(self.search_paths@)
    }

    /// The loaded copybooks, as (name, text) pairs.
    pub closed spec fn loaded(&self) -> Seq<(Seq<char>, Seq<char>)> {
        pairs_of(self.cache@)
    }

    /// The resolver's invariant: each copybook is loaded at most once.
    pub closed spec fn wf(&self) -> bool {
        keys_unique(self.loaded())
    }

    pub fn new(search_paths: Vec<String>) -> (r: Self)
        ensures
            r.wf(),
            r.paths() == strs(search_paths@),
            r.loaded().len() == 0,
    {
        let r = CopybookResolver { search_paths, cache: Vec::new() };
        proof {
            assert(r.loaded() =~= Seq::<(Seq<char>, Seq<char>)>::empty());
        }
        r
    }

    /// The directories searched for copybook files.
    pub fn search_paths(&self) -> (r: &Vec<String>)
        ensures
            strs(r@) == self.paths(),
    {
        &self.search_paths
    }

    /// The text loaded for copybook `name`, if it was loaded.
    pub fn cached(&self, name: &str) -> (r: Option<String>)
        requires
            self.wf(),
        ensures
            crate::exec_sql::opt_str(r) == cached_text(self.loaded(), name@),
    {
        let nv = str_chars(name);
        let mut i = self.cache.len();
        proof {
            assert(self.loaded().take(i as int) =~= self.loaded());
        }
        while i > 0
            invariant
                i <= self.cache@.len(),
                nv@ == name@,
                cached_text(self.loaded(), name@) == cached_text(self.loaded().take(i as int), name@),
            decreases i,
        {
            let key = str_chars(self.cache[i - 1].0.as_str());
            proof {
                assert(key@.subrange(0, key@.len() as int) =~= key@);
                assert(self.loaded().take(i as int).last() == self.loaded()[i - 1]);
                assert(self.loaded().take(i as int).drop_last() =~= self.loaded().take(i - 1));
            }
            if crate::text::equals_exec(&key, 0, key.len(), name) {
                return Some(self.cache[i - 1].1.clone());
            }
            i = i - 1;
        }
        None
    }

    /// Record the text of copybook `name`, loaded from its file; a name already loaded
    /// keeps its first text.
    pub fn remember(&mut self, name: &str, content: &str)
        requires
            old(self).wf(),
        ensures
            final(self).wf(),
            final(self).paths() == old(self).paths(),
            cached_text(final(self).loaded(), name@) == Some(
                match cached_text(old(self).loaded(), name@) {
                    Some(t) => t,
                    None => content@,
                },
            ),
            forall|other: Seq<char>|
                other != name@ ==> cached_text(final(self).loaded(), other) == cached_text(
                    old(self).loaded(),
                    other,
                ),
    {
        if self.cached(name).is_some() {
            return;
        }
        let ghost c0 = self.loaded();
        self.cache.push((String::from_str(name), String::from_str(content)));
        proof {
            assert(self.loaded() =~= c0.push((name@, content@)));
            assert(self.loaded().drop_last() =~= c0);
            lemma_cached_none_absent(c0, name@);
            assert forall|other: Seq<char>| other != name@ implies cached_text(self.loaded(), other)
                == cached_text(c0, other) by {
                assert(self.loaded().last().0 == name@);
            }
        }
    }

    /// List all COPY references found in the source without resolving them.
    pub fn find_copy_references(source: &str) -> (r: Vec<String>)
        ensures
            strs(r@) == copy_refs(std_lines(source@)),
    {
        let v = str_chars(source);
        let bs = line_bounds(&v);
        let ghost ls = std_lines(v@);
        let mut r: Vec<String> = Vec::new();
        let mut k: usize = 0;
        while k < bs.len()
            invariant
                k <= bs@.len(),
                ls == std_lines(v@),
                v@ == source@,
                pieces_of(v@, bs@) == ls,
                forall|m: int| 0 <= m < bs@.len() ==> (#[trigger] bs@[m]).0 <= bs@[m].1 <= v@.len(),
                strs(r@) == copy_refs(ls.take(k as int)),
            decreases bs@.len() - k,
        {
            let (a, b) = bs[k];
            proof {
                assert(ls[k as int] == v@.subrange(a as int, b as int));
                assert(ls.take(k + 1).drop_last() =~= ls.take(k as int));
                assert(ls.take(k + 1).last() == ls[k as int]);
            }
            let ghost r0 = strs(r@);
            match copy_ref_exec(&v, a, b) {
                Some((x, y)) => {
                    r.push(string_of(&v, x, y));
                    proof {
                        assert(strs(r@) =~= r0.push(v@.subrange(x as int, y as int)));
                    }
                },
                None => {},
            }
            k = k + 1;
        }
        proof {
            assert(ls.take(bs@.len() as int) =~= ls);
        }
        r
    }
}

proof fn lemma_cached_none_absent(c: Seq<(Seq<char>, Seq<char>)>, name: Seq<char>)
    requires
        cached_text(c, name) is None,
    ensures
        forall|i: int| 0 <= i < c.len() ==> (#[trigger] c[i]).0 != name,
    decreases c.len(),
{
    if c.len() > 0 {
        lemma_cached_none_absent(c.drop_last(), name);
        assert forall|i: int| 0 <= i < c.len() implies (#[trigger] c[i]).0 != name by {
            if i < c.len() - 1 {
                assert(c[i] == c.drop_last()[i]);
            }
        }
    }
}

} // verus!

verus! {

/// Why a source could not be resolved: a copybook it copies was not loaded.
#[derive(Debug, Clone)]
pub enum CopybookError {
    NotLoaded(String),
}

/// The first `k` lines of `ls` with each COPY statement replaced by its copybook's text,
/// every line ended by a line feed; or the first copybook that is not loaded.
pub open spec fn resolve_upto(ls: Seq<Seq<char>>, c: Seq<(Seq<char>, Seq<char>)>, k: int) -> Result<Seq<char>, Seq<char>>
    decreases k,
{
    if k <= 0 || k > ls.len() {
        Ok(Seq::empty())
    } else {
        match resolve_upto(ls, c, k - 1) {
            Err(n) => Err(n),
            Ok(t) => match copy_ref(ls[k - 1]) {
                Some(n) => match cached_text(c, n) {
                    Some(x) => Ok(t + x + "\n"@),
                    None => Err(n),
                },
                None => Ok(t + ls[k - 1] + "\n"@),
            },
        }
    }
}

proof fn lemma_resolve_err(ls: Seq<Seq<char>>, c: Seq<(Seq<char>, Seq<char>)>, k: int, j: int)
    requires
        0 < k <= j <= ls.len(),
        resolve_upto(ls, c, k) is Err,
    ensures
        resolve_upto(ls, c, j) == resolve_upto(ls, c, k),
    decreases j - k,
{
    if j > k {
        lemma_resolve_err(ls, c, k, j - 1);
    }
}

pub open spec fn resolution(source: Seq<char>, c: Seq<(Seq<char>, Seq<char>)>) -> Result<Seq<char>, Seq<char>> {
    resolve_upto(std_lines(source), c, std_lines(source).len() as int)
}

impl CopybookResolver {
    /// Resolve all COPY statements in the source, replacing them with the loaded
    /// copybook texts.
    pub fn resolve(&self, source: &str) -> (r: Result<String, CopybookError>)
        requires
            self.wf(),
        ensures
            match resolution(source@, self.loaded()) {
                Ok(t) => r matches Ok(s) && s@ == t,
                Err(n) => r matches Err(CopybookError::NotLoaded(m)) && m@ == n,
            },
    {
        let v = str_chars(source);
        let bs = line_bounds(&v);
        let ghost ls = std_lines(v@);
        let mut result = String::new();
        let mut k: usize = 0;
        proof {
            reveal_strlit("\n");
        }
        while k < bs.len()
            invariant
                k <= bs@.len(),
                self.wf(),
                ls == std_lines(v@),
                v@ == source@,
                pieces_of(v@, bs@) == ls,
                forall|m: int| 0 <= m < bs@.len() ==> (#[trigger] bs@[m]).0 <= bs@[m].1 <= v@.len(),
                resolve_upto(ls, self.loaded(), k as int) == Ok::<Seq<char>, Seq<char>>(result@),
                "\n"@ == seq!['\n'],
            decreases bs@.len() - k,
        {
            let (a, b) = bs[k];
            proof {
                assert(ls[k as int] == v@.subrange(a as int, b as int));
            }
            let ghost t0 = result@;
            match copy_ref_exec(&v, a, b) {
                Some((x, y)) => {
                    let name = string_of(&v, x, y);
                    match self.cached(name.as_str()) {
                        Some(text) => {
                            result.append(text.as_str());
                            push_char(&mut result, '\n');
                            proof {
                                assert(result@ =~= t0 + text@ + "\n"@);
                            }
                        },
                        None => {
                            proof {
                                assert(resolve_upto(ls, self.loaded(), k + 1) == Err::<Seq<char>, Seq<char>>(name@));
                                lemma_resolve_err(ls, self.loaded(), k + 1, ls.len() as int);
                            }
                            return Err(CopybookError::NotLoaded(name));
                        },
                    }
                },
                None => {
                    push_chars(&mut result, &v, a, b);
                    push_char(&mut result, '\n');
                    proof {
                        assert(result@ =~= t0 + ls[k as int] + "\n"@);
                    }
                },
            }
            k = k + 1;
        }
        Ok(result)
    }
}

/// A file name with an extension, or the bare name for the empty extension.
pub open spec fn with_ext(base: Seq<char>, ext: Seq<char>) -> Seq<char> {
    if ext.len() == 0 {
        base
    } else {
        base + "."@ + ext
    }
}

/// The extensions a copybook file may have, the bare name last.
pub open spec fn copybook_exts() -> Seq<Seq<char>> {
    seq!["cpy"@, "CPY"@, "cbl"@, "CBL"@, "copy"@, "COPY"@, ""@]
}

/// The file names tried for copybook `name` in each search directory, in order: for each
/// extension, the name as written, in (Unicode) upper case and in lower case.
pub open spec fn candidate_names(name: Seq<char>) -> Seq<Seq<char>> {
    Seq::new(
        21,
        |i: int|
            {
                let ext = copybook_exts()[i / 3];
                let base = if i % 3 == 0 {
                    name
                } else if i % 3 == 1 {
                    unicode_upper(name)
                } else {
                    unicode_lower(name)
                };
                with_ext(base, ext)
            },
    )
}

fn name_with_ext(base: &String, ext: &str) -> (r: String)
    ensures
        r@ == with_ext(base@, ext@),
{
    let mut r = base.clone();
    let ev = str_chars(ext);
    if ev.len() > 0 {
        push_char(&mut r, '.');
        r.append(ext);
        proof {
            reveal_strlit(".");
            assert(r@ =~= base@ + "."@ + ext@);
        }
    }
    r
}

impl CopybookResolver {
    /// The file names tried for copybook `name` in each search directory, in order.
    pub fn candidate_names(name: &str) -> (r: Vec<String>)
        ensures
            strs(r@) == candidate_names(name@),
    {
        let plain = String::from_str(name);
        let upper_name = to_uppercase_string(name);
        let lower_name = to_lowercase_string(name);
        let exts: [&str; 7] = ["cpy", "CPY", "cbl", "CBL", "copy", "COPY", ""];
        let mut r: Vec<String> = Vec::new();
        let mut k: usize = 0;
        proof {
            assert(exts@.map_values(|e: &str| e@) =~= copybook_exts());
        }
        while k < 7
            invariant
                k <= 7,
                exts@.len() == 7,
                exts@.map_values(|e: &str| e@) == copybook_exts(),
                plain@ == name@,
                upper_name@ == unicode_upper(name@),
                lower_name@ == unicode_lower(name@),
                strs(r@) =~= candidate_names(name@).take(3 * k),
            decreases 7 - k,
        {
            let ext = exts[k];
            let ghost r0 = strs(r@);
            proof {
                assert(ext@ == copybook_exts()[k as int]);
            }
            r.push(name_with_ext(&plain, ext));
            r.push(name_with_ext(&upper_name, ext));
            r.push(name_with_ext(&lower_name, ext));
            proof {
                let c = candidate_names(name@);
                assert((3 * k) / 3 == k) by (nonlinear_arith);
                assert((3 * k + 1) / 3 == k) by (nonlinear_arith);
                assert((3 * k + 2) / 3 == k) by (nonlinear_arith);
                assert((3 * k) % 3 == 0) by (nonlinear_arith);
                assert((3 * k + 1) % 3 == 1) by (nonlinear_arith);
                assert((3 * k + 2) % 3 == 2) by (nonlinear_arith);
                assert(c[3 * k] == with_ext(name@, copybook_exts()[k as int]));
                assert(c[3 * k + 1] == with_ext(unicode_upper(name@), copybook_exts()[k as int]));
                assert(c[3 * k + 2] == with_ext(unicode_lower(name@), copybook_exts()[k as int]));
                assert(strs(r@) =~= r0.push(c[3 * k]).push(c[3 * k + 1]).push(c[3 * k + 2]));
                assert(c.take(3 * k + 3) =~= c.take(3 * k).push(c[3 * k]).push(c[3 * k + 1]).push(c[3 * k + 2]));
            }
            k = k + 1;
        }
        proof {
            assert(candidate_names(name@).take(21) =~= candidate_names(name@));
        }
        r
    }
}

} // verus!

verus! {

// ---------------------------------------------------------------------------
// Laws
// ---------------------------------------------------------------------------

/// The lines `ls[0..k]`, each ended by a line feed.
pub open spec fn lines_text(ls: Seq<Seq<char>>, k: int) -> Seq<char>
    decreases k,
{
    if k <= 0 || k > ls.len() {
        Seq::empty()
    } else {
        lines_text(ls, k - 1) + ls[k - 1] + "\n"@
    }
}

proof fn lemma_resolve_plain(ls: Seq<Seq<char>>, c: Seq<(Seq<char>, Seq<char>)>, k: int)
    requires
        0 <= k <= ls.len(),
        forall|i: int| 0 <= i < ls.len() ==> copy_ref(#[trigger] ls[i]) is None,
    ensures
        resolve_upto(ls, c, k) == Ok::<Seq<char>, Seq<char>>(lines_text(ls, k)),
    decreases k,
{
    if k > 0 {
        lemma_resolve_plain(ls, c, k - 1);
        assert(copy_ref(ls[k - 1]) is None);
    }
}

/// A source without COPY statements resolves to its own lines, each ended by a line feed,
/// whatever copybooks are loaded.
pub proof fn lemma_resolve_without_copy(source: Seq<char>, c: Seq<(Seq<char>, Seq<char>)>)
    requires
        copy_refs(std_lines(source)).len() == 0,
    ensures
        resolution(source, c) == Ok::<Seq<char>, Seq<char>>(
            lines_text(std_lines(source), std_lines(source).len() as int),
        ),
{
    let ls = std_lines(source);
    lemma_no_refs(ls);
    lemma_resolve_plain(ls, c, ls.len() as int);
}

proof fn lemma_no_refs(ls: Seq<Seq<char>>)
    requires
        copy_refs(ls).len() == 0,
    ensures
        forall|i: int| 0 <= i < ls.len() ==> copy_ref(#[trigger] ls[i]) is None,
    decreases ls.len(),
{
    if ls.len() > 0 {
        lemma_no_refs(ls.drop_last());
        assert forall|i: int| 0 <= i < ls.len() implies copy_ref(#[trigger] ls[i]) is None by {
            if i < ls.len() - 1 {
                assert(ls[i] == ls.drop_last()[i]);
            }
        }
    }
}

proof fn lemma_resolve_prefix(ls: Seq<Seq<char>>, c: Seq<(Seq<char>, Seq<char>)>, k: int)
    requires
        0 <= k <= ls.len(),
        forall|i: int| 0 <= i < copy_refs(ls.take(k)).len() ==> cached_text(c, #[trigger] copy_refs(ls.take(k))[i]) is Some,
    ensures
        resolve_upto(ls, c, k) is Ok,
    decreases k,
{
    if k > 0 {
        let t = ls.take(k);
        assert(t.drop_last() =~= ls.take(k - 1));
        assert(t.last() == ls[k - 1]);
        assert forall|i: int| 0 <= i < copy_refs(ls.take(k - 1)).len() implies cached_text(c, #[trigger] copy_refs(ls.take(k - 1))[i]) is Some by {
            assert(copy_refs(t)[i] == copy_refs(ls.take(k - 1))[i]);
        }
        lemma_resolve_prefix(ls, c, k - 1);
        if let Some(n) = copy_ref(ls[k - 1]) {
            assert(copy_refs(t).last() == n);
            assert(cached_text(c, copy_refs(t)[copy_refs(t).len() - 1]) is Some);
        }
    }
}

/// When every copybook that the source's COPY statements name is loaded, the source
/// resolves.
pub proof fn lemma_resolve_when_loaded(source: Seq<char>, c: Seq<(Seq<char>, Seq<char>)>)
    requires
        forall|i: int|
            0 <= i < copy_refs(std_lines(source)).len() ==> cached_text(
                c,
                #[trigger] copy_refs(std_lines(source))[i],
            ) is Some,
    ensures
        resolution(source, c) is Ok,
{
    let ls = std_lines(source);
    assert(ls.take(ls.len() as int) =~= ls);
    lemma_resolve_prefix(ls, c, ls.len() as int);
}

/// What one line becomes: the text of the copybook it names, or the line itself.
pub open spec fn expansion(l: Seq<char>, c: Seq<(Seq<char>, Seq<char>)>) -> Seq<char> {
    match copy_ref(l) {
        Some(n) => cached_text(c, n).unwrap(),
        None => l,
    }
}

/// The expansions of the first `k` lines, each followed by a line feed.
pub open spec fn expanded(ls: Seq<Seq<char>>, c: Seq<(Seq<char>, Seq<char>)>, k: int) -> Seq<char>
    decreases k,
{
    if k <= 0 || k > ls.len() {
        Seq::empty()
    } else {
        expanded(ls, c, k - 1) + expansion(ls[k - 1], c) + "\n"@
    }
}

/// When every copybook named by the source is loaded, resolving replaces each COPY line by
/// its copybook's text and keeps every other line, in order, each followed by a line
/// feed.
pub proof fn lemma_resolve_expands_lines(source: Seq<char>, c: Seq<(Seq<char>, Seq<char>)>)
    requires
        forall|i: int|
            0 <= i < copy_refs(std_lines(source)).len() ==> cached_text(
                c,
                #[trigger] copy_refs(std_lines(source))[i],
            ) is Some,
    ensures
        resolution(source, c) == Ok::<Seq<char>, Seq<char>>(
            expanded(std_lines(source), c, std_lines(source).len() as int),
        ),
{
    let ls = std_lines(source);
    assert(ls.take(ls.len() as int) =~= ls);
    lemma_expand_prefix(ls, c, ls.len() as int);
}

proof fn lemma_expand_prefix(ls: Seq<Seq<char>>, c: Seq<(Seq<char>, Seq<char>)>, k: int)
    requires
        0 <= k <= ls.len(),
        forall|i: int| 0 <= i < copy_refs(ls.take(k)).len() ==> cached_text(c, #[trigger] copy_refs(ls.take(k))[i]) is Some,
    ensures
        resolve_upto(ls, c, k) == Ok::<Seq<char>, Seq<char>>(expanded(ls, c, k)),
    decreases k,
{
    if k > 0 {
        let t = ls.take(k);
        assert(t.drop_last() =~= ls.take(k - 1));
        assert(t.last() == ls[k - 1]);
        assert forall|i: int| 0 <= i < copy_refs(ls.take(k - 1)).len() implies cached_text(c, #[trigger] copy_refs(ls.take(k - 1))[i]) is Some by {
            assert(copy_refs(t)[i] == copy_refs(ls.take(k - 1))[i]);
        }
        lemma_expand_prefix(ls, c, k - 1);
        if let Some(n) = copy_ref(ls[k - 1]) {
            assert(copy_refs(t).last() == n);
            assert(cached_text(c, copy_refs(t)[copy_refs(t).len() - 1]) is Some);
        }
    }
}

} // verus!
