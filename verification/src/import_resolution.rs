//! Resolving the source of an import statement to the entity it names.
//!
//! An import is given by its source text (`./util`, `..models`,
//! `src.b.util`, `util.ts`, ...), the path of the importing file, and the
//! file extensions of its language.  Explicit relative imports and dotted
//! Python module paths are turned into candidate file paths; other imports
//! fall back to comparing file stems.
use vstd::prelude::*;
use crate::entity::{EntityInfo, EntityMap};
use vstd::string::StrSliceExecFns;
use crate::path::{
    components, copy_chars, join_names, join_with_slashes, joined_parts, normalize_components,
    normalize_parts, parent_parts, parts_of, path_components, Component, PathPart, split_on,
    lemma_split_nonempty, piece_part, tail_parts,
};
use crate::text::{
    chars_contain, chars_ends_with, chars_eq, chars_of, chars_replace, chars_starts_with,
    count_leading, ends_with, leading_count, lemma_trim_start_char_skip, replace_char, starts_with, string_from_chars,
    trim_chars, trim_start_char, trim_ws,
};

verus! {

// ------------------------------------------------------------------
// The model
// ------------------------------------------------------------------

/// The views of a sequence of string slices.
pub open spec fn strs_of(v: Seq<&str>) -> Seq<Seq<char>> {
    v.map_values(|s: &str| s@)
}

/// The views of a sequence of strings.
pub open spec fn strings_of(v: Seq<String>) -> Seq<Seq<char>> {
    v.map_values(|s: String| s@)
}

pub open spec fn dot_slash() -> Seq<char> {
    seq!['.', '/']
}

pub open spec fn dot_dot_slash() -> Seq<char> {
    seq!['.', '.', '/']
}

pub open spec fn py_ext() -> Seq<char> {
    seq!['.', 'p', 'y']
}

pub open spec fn index_suffix() -> Seq<char> {
    seq!['/', 'i', 'n', 'd', 'e', 'x']
}

/// The components of the directory that holds `file` (none where `file`
/// has no parent).
pub open spec fn base_parts(file: Seq<char>) -> Seq<PathPart> {
    match parent_parts(components(file)) {
        Some(p) => p,
        None => Seq::empty(),
    }
}

/// The `n`-th ancestor of the directory with components `b`.
pub open spec fn ancestor_parts(b: Seq<PathPart>, n: nat) -> Option<Seq<PathPart>>
    decreases n,
{
    if n == 0 {
        Some(b)
    } else {
        match parent_parts(b) {
            None => None,
            Some(p) => ancestor_parts(p, (n - 1) as nat),
        }
    }
}

/// The module names of a Python relative import `sp` (`.mod`, `..pkg.mod`)
/// made from `file`: each dot after the first climbs one directory, and the
/// rest of the dotted path descends.
pub open spec fn python_relative_names(file: Seq<char>, sp: Seq<char>) -> Option<Seq<Seq<char>>> {
    let d = leading_count(sp, '.');
    if d == 0 {
        None
    } else {
        match ancestor_parts(base_parts(file), (d - 1) as nat) {
            None => None,
            Some(b) => {
                let rem = replace_char(sp.skip(d as int), '.', '/');
                if rem.len() == 0 {
                    normalize_parts(b)
                } else {
                    normalize_parts(joined_parts(b, rem))
                }
            },
        }
    }
}

/// The names of the module that the import `source` in `file` points to,
/// where the import says it explicitly.
pub open spec fn module_names(file: Seq<char>, source: Seq<char>, exts: Seq<Seq<char>>) -> Option<
    Seq<Seq<char>>,
> {
    let sp = trim_ws(source);
    if sp.len() == 0 {
        None
    } else if sp[0] == '.' && !starts_with(sp, dot_slash()) && !starts_with(sp, dot_dot_slash()) {
        python_relative_names(file, sp)
    } else if starts_with(sp, dot_slash()) || starts_with(sp, dot_dot_slash()) {
        normalize_parts(joined_parts(base_parts(file), sp))
    } else if exts.len() == 1 && exts[0] == py_ext() && sp.contains('.') {
        normalize_parts(components(replace_char(sp, '.', '/')))
    } else {
        None
    }
}

/// Some extension of `exts` ends `m`.
pub open spec fn has_known_ext(m: Seq<char>, exts: Seq<Seq<char>>) -> bool {
    exists|i: int| 0 <= i < exts.len() && ends_with(m, #[trigger] exts[i])
}

/// `s` with later repetitions of an item removed.
pub open spec fn dedup(s: Seq<Seq<char>>) -> Seq<Seq<char>>
    decreases s.len(),
{
    if s.len() == 0 {
        s
    } else if s.drop_last().contains(s.last()) {
        dedup(s.drop_last())
    } else {
        dedup(s.drop_last()).push(s.last())
    }
}

/// The file paths that the module path `m` may name, most likely first:
/// `m` itself where it already ends in a known extension, otherwise `m`
/// with each extension, then `m/index` with each extension.
pub open spec fn candidate_paths(m: Seq<char>, exts: Seq<Seq<char>>) -> Seq<Seq<char>> {
    if has_known_ext(m, exts) {
        seq![m]
    } else {
        dedup(raw_candidates(m, exts))
    }
}

pub open spec fn raw_candidates(m: Seq<char>, exts: Seq<Seq<char>>) -> Seq<Seq<char>> {
    exts.map_values(|e: Seq<char>| m + e) + exts.map_values(|e: Seq<char>| m + index_suffix() + e)
}

/// The candidate file paths of the import `source` in `file`, where the
/// import names its module explicitly.
pub open spec fn file_candidates(file: Seq<char>, source: Seq<char>, exts: Seq<Seq<char>>) -> Option<
    Seq<Seq<char>>,
> {
    match module_names(file, source, exts) {
        None => None,
        Some(names) => Some(candidate_paths(join_names(names), exts)),
    }
}

pub proof fn lemma_dedup_contains(s: Seq<Seq<char>>)
    ensures
        forall|x: Seq<char>| dedup(s).contains(x) <==> s.contains(x),
    decreases s.len(),
{
    if s.len() > 0 {
        lemma_dedup_contains(s.drop_last());
        assert(s == s.drop_last().push(s.last()));
        assert forall|x: Seq<char>| dedup(s).contains(x) <==> s.contains(x) by {
            if s.contains(x) && x != s.last() {
                let i = choose|i: int| 0 <= i < s.len() && s[i] == x;
                assert(s.drop_last()[i] == x);
            }
            if dedup(s).contains(x) && !s.drop_last().contains(s.last()) && x != s.last() {
                let i = choose|i: int| 0 <= i < dedup(s).len() && dedup(s)[i] == x;
                assert(dedup(s.drop_last())[i] == x);
            }
            if dedup(s.drop_last()).contains(x) {
                let i = choose|i: int|
                    0 <= i < dedup(s.drop_last()).len() && dedup(s.drop_last())[i] == x;
                if !s.drop_last().contains(s.last()) {
                    assert(dedup(s)[i] == x);
                }
            }
            if s.drop_last().contains(x) {
                let i = choose|i: int| 0 <= i < s.drop_last().len() && s.drop_last()[i] == x;
                assert(s[i] == x);
            }
            if x == s.last() && !s.drop_last().contains(s.last()) {
                assert(dedup(s)[dedup(s).len() - 1] == x);
            }
            if x == s.last() {
                assert(s[s.len() - 1] == x);
            }
        }
    }
}

// ------------------------------------------------------------------
// Candidate paths
// ------------------------------------------------------------------

/// The two sequences concatenated.
fn concat_chars(a: &[char], b: &[char]) -> (r: Vec<char>)
    ensures
        r@ == a@ + b@,
{
    let mut out = copy_chars(a);
    let n = b.len();
    for i in 0..n
        invariant
            n == b@.len(),
            out@ == a@ + b@.take(i as int),
    {
        out.push(b[i]);
        assert(b@.take(i + 1) == b@.take(i as int).push(b@[i as int]));
        assert(a@ + b@.take(i + 1) =~= (a@ + b@.take(i as int)).push(b@[i as int]));
    }
    assert(b@.take(n as int) == b@);
    out
}

/// Whether a string with the characters `s` is in `v`.
fn strings_contain(v: &Vec<String>, s: &String) -> (r: bool)
    ensures
        r == strings_of(v@).contains(s@),
{
    let n = v.len();
    for i in 0..n
        invariant
            n == v@.len(),
            forall|j: int| 0 <= j < i ==> v@[j]@ != s@,
    {
        if v[i] == *s {
            assert(strings_of(v@)[i as int] == s@);
            return true;
        }
    }
    assert forall|j: int| 0 <= j < strings_of(v@).len() implies strings_of(v@)[j] != s@ by {
        assert(strings_of(v@)[j] == v@[j]@);
    }
    false
}

/// Adds `s` to `out` unless a string with its characters is already there.
fn push_new(out: &mut Vec<String>, s: String, Ghost(raw): Ghost<Seq<Seq<char>>>)
    requires
        strings_of(old(out)@) == dedup(raw),
    ensures
        strings_of(final(out)@) == dedup(raw.push(s@)),
{
    proof {
        lemma_dedup_contains(raw);
        assert(raw.push(s@).drop_last() == raw);
    }
    if !strings_contain(out, &s) {
        let ghost before = strings_of(out@);
        out.push(s);
        assert(strings_of(out@) =~= before.push(s@));
    }
}

/// Whether some extension in `extensions` ends `m`.
fn ends_with_any(m: &[char], extensions: &[&str]) -> (r: bool)
    ensures
        r == has_known_ext(m@, strs_of(extensions@)),
{
    let ghost exts = strs_of(extensions@);
    let n = extensions.len();
    for i in 0..n
        invariant
            n == extensions@.len(),
            exts == strs_of(extensions@),
            forall|j: int| 0 <= j < i ==> !ends_with(m@, #[trigger] exts[j]),
    {
        let e = chars_of(extensions[i]);
        assert(e@ == exts[i as int]);
        if chars_ends_with(m, e.as_slice()) {
            return true;
        }
    }
    false
}

/// The file paths that the module path `mod_path` may name.
fn module_candidates(mod_path: &[char], extensions: &[&str]) -> (r: Vec<String>)
    ensures
        strings_of(r@) == candidate_paths(mod_path@, strs_of(extensions@)),
{
    let ghost m = mod_path@;
    let ghost exts = strs_of(extensions@);
    let n = extensions.len();
    let known = ends_with_any(mod_path, extensions);
    if known {
        let mut one: Vec<String> = Vec::new();
        one.push(string_from_chars(mod_path));
        assert(strings_of(one@) =~= seq![m]);
        return one;
    }
    let ghost raw = raw_candidates(m, exts);
    let mut out: Vec<String> = Vec::new();
    assert(raw.take(0) =~= Seq::<Seq<char>>::empty());
    assert(strings_of(out@) =~= dedup(raw.take(0)));
    for i in 0..n
        invariant
            n == extensions@.len(),
            exts == strs_of(extensions@),
            raw == raw_candidates(m, exts),
            m == mod_path@,
            strings_of(out@) == dedup(raw.take(i as int)),
    {
        let e = chars_of(extensions[i]);
        assert(e@ == exts[i as int]);
        let joined = concat_chars(mod_path, e.as_slice());
        assert(joined@ == m + exts[i as int]);
        let c = string_from_chars(joined.as_slice());
        assert(raw[i as int] == m + exts[i as int]);
        assert(raw.take(i + 1) =~= raw.take(i as int).push(c@));
        push_new(&mut out, c, Ghost(raw.take(i as int)));
    }
    let index: Vec<char> = vec!['/', 'i', 'n', 'd', 'e', 'x'];
    assert(index@ =~= index_suffix());
    let with_index = concat_chars(mod_path, index.as_slice());
    for i in 0..n
        invariant
            n == extensions@.len(),
            exts == strs_of(extensions@),
            raw == raw_candidates(m, exts),
            m == mod_path@,
            with_index@ == m + index_suffix(),
            strings_of(out@) == dedup(raw.take(n + i)),
    {
        let e = chars_of(extensions[i]);
        assert(e@ == exts[i as int]);
        let joined = concat_chars(with_index.as_slice(), e.as_slice());
        assert(joined@ == m + index_suffix() + exts[i as int]);
        let c = string_from_chars(joined.as_slice());
        assert(raw[n + i] == m + index_suffix() + exts[i as int]);
        assert(raw.take(n + i + 1) =~= raw.take(n + i).push(c@));
        push_new(&mut out, c, Ghost(raw.take(n + i)));
    }
    assert(raw.take(n + n) =~= raw);
    out
}

// ------------------------------------------------------------------
// Module paths
// ------------------------------------------------------------------

/// The components of the directory holding the file `file`.
fn base_components(file: &[char]) -> (r: Vec<Component>)
    ensures
        parts_of(r@) == base_parts(file@),
{
    let mut c = path_components(file);
    if c.len() == 0 {
        return c;
    }
    let is_root = match &c[c.len() - 1] {
        Component::RootDir => true,
        _ => false,
    };
    if is_root {
        return Vec::new();
    }
    let ghost before = parts_of(c@);
    c.pop();
    assert(parts_of(c@) =~= before.drop_last());
    c
}

/// The components of the parent of the path with components `c`.
fn parent_components(c: Vec<Component>) -> (r: Option<Vec<Component>>)
    ensures
        match r {
            None => parent_parts(parts_of(c@)) is None,
            Some(p) => parent_parts(parts_of(c@)) == Some(parts_of(p@)),
        },
{
    let mut c = c;
    if c.len() == 0 {
        return None;
    }
    let is_root = match &c[c.len() - 1] {
        Component::RootDir => true,
        _ => false,
    };
    if is_root {
        return None;
    }
    let ghost before = parts_of(c@);
    c.pop();
    assert(parts_of(c@) =~= before.drop_last());
    Some(c)
}

/// The components of `base` joined with the path `s`.
fn joined_components(base: Vec<Component>, s: &[char]) -> (r: Vec<Component>)
    ensures
        parts_of(r@) == joined_parts(parts_of(base@), s@),
{
    let mut rest = path_components(s);
    if s.len() > 0 && s[0] == '/' {
        return rest;
    }
    let mut base = base;
    let ghost b = parts_of(base@);
    let ghost t = parts_of(rest@);
    base.append(&mut rest);
    assert(parts_of(base@) =~= b + t);
    base
}

/// The `/`-joined names that the components `c` resolve to.
fn resolve_components(c: &[Component]) -> (r: Option<Vec<char>>)
    ensures
        match r {
            None => normalize_parts(parts_of(c@)) is None,
            Some(p) => exists|names: Seq<Seq<char>>|
                normalize_parts(parts_of(c@)) == Some(names) && p@ == join_names(names),
        },
{
    match normalize_components(c) {
        None => None,
        Some(names) => {
            let p = join_with_slashes(names.as_slice());
            Some(p)
        },
    }
}

/// The module path of a Python relative import `source_path` in `file_path`.
fn python_relative_module_path(file_path: &[char], source_path: &[char]) -> (r: Option<Vec<char>>)
    ensures
        match r {
            None => python_relative_names(file_path@, source_path@) is None,
            Some(p) => exists|names: Seq<Seq<char>>|
                python_relative_names(file_path@, source_path@) == Some(names) && p@ == join_names(
                    names,
                ),
        },
{
    let dot_count = count_leading(source_path, '.');
    proof {
        lemma_trim_start_char_skip(source_path@, '.');
    }
    if dot_count == 0 {
        return None;
    }
    let mut base = base_components(file_path);
    let ghost b0 = parts_of(base@);
    assert(ancestor_parts(b0, 0) == Some(b0));
    for k in 1..dot_count
        invariant
            ancestor_parts(b0, (k - 1) as nat) == Some(parts_of(base@)),
            b0 == base_parts(file_path@),
            dot_count == leading_count(source_path@, '.'),
    {
        proof {
            lemma_ancestor_step(b0, (k - 1) as nat);
        }
        let ghost cur = parts_of(base@);
        match parent_components(base) {
            None => {
                proof {
                    assert(parent_parts(cur) is None);
                    assert(ancestor_parts(b0, (k - 1) as nat) == Some(cur));
                    lemma_ancestor_none_extends(b0, (k - 1) as nat, (dot_count - 1) as nat);
                    assert(ancestor_parts(base_parts(file_path@), (dot_count - 1) as nat) is None);
                    assert(leading_count(source_path@, '.') == dot_count);
                }
                return None;
            },
            Some(p) => {
                base = p;
            },
        }
    }
    let ghost b = parts_of(base@);
    assert(ancestor_parts(b0, (dot_count - 1) as nat) == Some(b));
    let mut tail: Vec<char> = Vec::new();
    let n = source_path.len();
    for k in dot_count..n
        invariant
            n == source_path@.len(),
            dot_count <= n,
            tail@ == source_path@.subrange(dot_count as int, k as int),
    {
        tail.push(source_path[k]);
        assert(source_path@.subrange(dot_count as int, k + 1) == source_path@.subrange(
            dot_count as int,
            k as int,
        ).push(source_path@[k as int]));
    }
    assert(tail@ == source_path@.skip(dot_count as int));
    let remainder = chars_replace(tail.as_slice(), '.', '/');
    if remainder.len() == 0 {
        resolve_components(base.as_slice())
    } else {
        let joined = joined_components(base, remainder.as_slice());
        resolve_components(joined.as_slice())
    }
}

proof fn lemma_ancestor_step(b: Seq<PathPart>, n: nat)
    ensures
        ancestor_parts(b, n + 1) == match ancestor_parts(b, n) {
            None => None,
            Some(p) => parent_parts(p),
        },
    decreases n,
{
    reveal_with_fuel(ancestor_parts, 2);
    if n > 0 {
        match parent_parts(b) {
            None => {},
            Some(p) => {
                lemma_ancestor_step(p, (n - 1) as nat);
            },
        }
    }
}

proof fn lemma_ancestor_none_extends(b: Seq<PathPart>, n: nat, m: nat)
    requires
        n < m,
        ancestor_parts(b, n) is Some,
        parent_parts(ancestor_parts(b, n)->0) is None,
    ensures
        ancestor_parts(b, m) is None,
    decreases m - n,
{
    lemma_ancestor_step(b, n);
    if n + 1 < m {
        lemma_ancestor_none_after(b, n + 1, m);
    }
}

proof fn lemma_ancestor_none_after(b: Seq<PathPart>, n: nat, m: nat)
    requires
        n <= m,
        ancestor_parts(b, n) is None,
    ensures
        ancestor_parts(b, m) is None,
    decreases m - n,
{
    if n < m {
        lemma_ancestor_step(b, n);
        lemma_ancestor_none_after(b, n + 1, m);
    }
}

/// The module path that the import `source_path` in `file_path` names
/// explicitly, if it does.
fn explicit_module_path(file_path: &[char], source_path: &[char], extensions: &[&str]) -> (r: Option<
    Vec<char>,
>)
    ensures
        match r {
            None => module_names(file_path@, source_path@, strs_of(extensions@)) is None,
            Some(p) => exists|names: Seq<Seq<char>>|
                module_names(file_path@, source_path@, strs_of(extensions@)) == Some(names) && p@
                    == join_names(names),
        },
{
    let sp = trim_chars(source_path);
    if sp.len() == 0 {
        return None;
    }
    let ds: Vec<char> = vec!['.', '/'];
    let dds: Vec<char> = vec!['.', '.', '/'];
    assert(ds@ =~= dot_slash());
    assert(dds@ =~= dot_dot_slash());
    let explicit = chars_starts_with(sp.as_slice(), ds.as_slice()) || chars_starts_with(
        sp.as_slice(),
        dds.as_slice(),
    );
    if sp[0] == '.' && !explicit {
        python_relative_module_path(file_path, sp.as_slice())
    } else if explicit {
        let base = base_components(file_path);
        let joined = joined_components(base, sp.as_slice());
        resolve_components(joined.as_slice())
    } else {
        let mut single_py = false;
        if extensions.len() == 1 {
            let e = chars_of(extensions[0]);
            let py: Vec<char> = vec!['.', 'p', 'y'];
            assert(py@ =~= py_ext());
            single_py = chars_eq(e.as_slice(), py.as_slice());
        }
        if single_py && chars_contain(sp.as_slice(), '.') {
            let dotted = chars_replace(sp.as_slice(), '.', '/');
            let c = path_components(dotted.as_slice());
            resolve_components(c.as_slice())
        } else {
            None
        }
    }
}

/// The candidate file paths of the import `source_path` in `file_path`,
/// where the import names its module explicitly.
pub fn import_file_candidates(file_path: &str, source_path: &str, extensions: &[&str]) -> (r: Option<
    Vec<String>,
>)
    ensures
        match r {
            None => file_candidates(file_path@, source_path@, strs_of(extensions@)) is None,
            Some(v) => file_candidates(file_path@, source_path@, strs_of(extensions@)) == Some(
                strings_of(v@),
            ),
        },
{
    let f = chars_of(file_path);
    let s = chars_of(source_path);
    match explicit_module_path(f.as_slice(), s.as_slice(), extensions) {
        None => None,
        Some(m) => Some(module_candidates(m.as_slice(), extensions)),
    }
}

// ------------------------------------------------------------------
// File stems
// ------------------------------------------------------------------

/// What follows the last `c` in `s` (all of `s` where there is none), as
/// `s.rsplit(c).next()` yields it.
pub open spec fn last_segment(s: Seq<char>, c: char) -> Seq<char>
    decreases s.len(),
{
    if s.len() == 0 {
        s
    } else if s.last() == c {
        Seq::empty()
    } else {
        last_segment(s.drop_last(), c).push(s.last())
    }
}

/// `name` without the first of the known source extensions that ends it.
pub open spec fn strip_source_ext(name: Seq<char>) -> Seq<char> {
    if ends_with(name, seq!['.', 'p', 'y']) {
        name.take(name.len() - 3)
    } else if ends_with(name, seq!['.', 'r', 's']) {
        name.take(name.len() - 3)
    } else if ends_with(name, seq!['.', 't', 's']) {
        name.take(name.len() - 3)
    } else if ends_with(name, seq!['.', 't', 's', 'x']) {
        name.take(name.len() - 4)
    } else if ends_with(name, seq!['.', 'j', 's']) {
        name.take(name.len() - 3)
    } else if ends_with(name, seq!['.', 'j', 's', 'x']) {
        name.take(name.len() - 4)
    } else if ends_with(name, seq!['.', 'g', 'o']) {
        name.take(name.len() - 3)
    } else {
        name
    }
}

/// The file name of `path` without its source extension.
pub open spec fn file_stem_of(path: Seq<char>) -> Seq<char> {
    strip_source_ext(last_segment(path, '/'))
}

/// The module name that a bare import `source` refers to: its last path
/// segment without a source extension, or, where it has none, its last
/// dotted segment.
pub open spec fn import_stem_of(source: Seq<char>) -> Seq<char> {
    let s1 = last_segment(trim_start_char(source, '.'), '/');
    let stem = file_stem_of(s1);
    if stem == s1 {
        last_segment(s1, '.')
    } else {
        stem
    }
}

/// A sequence without `c` is its own last segment.
pub proof fn lemma_last_segment_without_sep(s: Seq<char>, c: char)
    requires
        !s.contains(c),
    ensures
        last_segment(s, c) == s,
    decreases s.len(),
{
    if s.len() > 0 {
        assert(!s.drop_last().contains(c)) by {
            if s.drop_last().contains(c) {
                let q = choose|q: int| 0 <= q < s.drop_last().len() && #[trigger] s.drop_last()[q] == c;
                assert(s[q] == c);
            }
        }
        lemma_last_segment_without_sep(s.drop_last(), c);
        assert(s[s.len() - 1] != c);
        assert(s.drop_last().push(s.last()) =~= s);
    }
}

/// Where the last segment of `cs` after `c` starts.
fn last_segment_start(cs: &[char], c: char) -> (r: usize)
    ensures
        r <= cs@.len(),
        cs@.skip(r as int) == last_segment(cs@, c),
        !cs@.skip(r as int).contains(c),
{
    let mut j = cs.len();
    assert(cs@.take(j as int) == cs@);
    assert(cs@.skip(j as int) =~= Seq::<char>::empty());
    while j > 0 && cs[j - 1] != c
        invariant
            j <= cs@.len(),
            last_segment(cs@, c) == last_segment(cs@.take(j as int), c) + cs@.skip(j as int),
            !cs@.skip(j as int).contains(c),
        decreases j,
    {
        let ghost t = cs@.take(j as int);
        assert(t.drop_last() =~= cs@.take(j - 1));
        assert(t.last() == cs@[j - 1]);
        assert(cs@.skip(j - 1) =~= seq![cs@[j - 1]] + cs@.skip(j as int));
        assert(last_segment(t, c) == last_segment(cs@.take(j - 1), c).push(cs@[j - 1]));
        assert(last_segment(cs@.take(j - 1), c).push(cs@[j - 1]) + cs@.skip(j as int)
            =~= last_segment(cs@.take(j - 1), c) + cs@.skip(j - 1));
        assert(!cs@.skip(j - 1).contains(c)) by {
            if cs@.skip(j - 1).contains(c) {
                let q = choose|q: int| 0 <= q < cs@.skip(j - 1).len() && #[trigger] cs@.skip(j - 1)[q] == c;
                if q > 0 {
                    assert(cs@.skip(j as int)[q - 1] == c);
                }
            }
        }
        j = j - 1;
    }
    if j > 0 {
        let ghost t = cs@.take(j as int);
        assert(t.last() == c);
        assert(last_segment(t, c) =~= Seq::<char>::empty());
    } else {
        assert(cs@.take(0) =~= Seq::<char>::empty());
    }
    assert(last_segment(cs@, c) =~= cs@.skip(j as int));
    j
}

/// The length of `name` without its source extension.
fn stem_len(name: &[char]) -> (r: usize)
    ensures
        r <= name@.len(),
        name@.take(r as int) == strip_source_ext(name@),
{
    let py: Vec<char> = vec!['.', 'p', 'y'];
    let rs: Vec<char> = vec!['.', 'r', 's'];
    let ts: Vec<char> = vec!['.', 't', 's'];
    let tsx: Vec<char> = vec!['.', 't', 's', 'x'];
    let js: Vec<char> = vec!['.', 'j', 's'];
    let jsx: Vec<char> = vec!['.', 'j', 's', 'x'];
    let go: Vec<char> = vec!['.', 'g', 'o'];
    assert(py@ =~= seq!['.', 'p', 'y']);
    assert(rs@ =~= seq!['.', 'r', 's']);
    assert(ts@ =~= seq!['.', 't', 's']);
    assert(tsx@ =~= seq!['.', 't', 's', 'x']);
    assert(js@ =~= seq!['.', 'j', 's']);
    assert(jsx@ =~= seq!['.', 'j', 's', 'x']);
    assert(go@ =~= seq!['.', 'g', 'o']);
    let n = name.len();
    let r = if chars_ends_with(name, py.as_slice()) {
        n - 3
    } else if chars_ends_with(name, rs.as_slice()) {
        n - 3
    } else if chars_ends_with(name, ts.as_slice()) {
        n - 3
    } else if chars_ends_with(name, tsx.as_slice()) {
        n - 4
    } else if chars_ends_with(name, js.as_slice()) {
        n - 3
    } else if chars_ends_with(name, jsx.as_slice()) {
        n - 4
    } else if chars_ends_with(name, go.as_slice()) {
        n - 3
    } else {
        n
    };
    assert(name@.take(n as int) == name@);
    r
}

/// The characters of `cs` from `start` on.
fn chars_from(cs: &[char], start: usize) -> (r: Vec<char>)
    requires
        start <= cs@.len(),
    ensures
        r@ == cs@.skip(start as int),
{
    let mut out: Vec<char> = Vec::new();
    let n = cs.len();
    for k in start..n
        invariant
            n == cs@.len(),
            start <= n,
            out@ == cs@.subrange(start as int, k as int),
    {
        out.push(cs[k]);
        assert(cs@.subrange(start as int, k + 1) == cs@.subrange(start as int, k as int).push(
            cs@[k as int],
        ));
    }
    out
}

/// The file name of `file_path` without its source extension
/// (`src/util.ts` gives `util`).
pub fn file_stem(file_path: &str) -> (r: &str)
    ensures
        r@ == file_stem_of(file_path@),
{
    let cs = chars_of(file_path);
    let start = last_segment_start(cs.as_slice(), '/');
    let name = chars_from(cs.as_slice(), start);
    assert(name@.len() == cs@.len() - start);
    let len = stem_len(name.as_slice());
    assert(start + len <= cs.len());
    assert(cs@.subrange(start as int, start + len) =~= name@.take(len as int));
    file_path.substring_char(start, start + len)
}

/// The module name that the import `source_path` refers to, for imports
/// that do not name a file explicitly.
pub fn import_stem(source_path: &str) -> (r: &str)
    ensures
        r@ == import_stem_of(source_path@),
{
    let cs = chars_of(source_path);
    let d = count_leading(cs.as_slice(), '.');
    proof {
        lemma_trim_start_char_skip(cs@, '.');
    }
    let after_dots = chars_from(cs.as_slice(), d);
    let st = last_segment_start(after_dots.as_slice(), '/');
    let s1 = chars_from(after_dots.as_slice(), st);
    assert(s1@ == last_segment(trim_start_char(source_path@, '.'), '/'));
    proof {
        lemma_last_segment_without_sep(s1@, '/');
    }
    let len = stem_len(s1.as_slice());
    let n = cs.len();
    assert(file_stem_of(s1@) == s1@.take(len as int));
    if len == s1.len() {
        assert(s1@.take(len as int) == s1@);
        let st2 = last_segment_start(s1.as_slice(), '.');
        assert(cs@.subrange(d + st + st2, n as int) =~= s1@.skip(st2 as int));
        source_path.substring_char(d + st + st2, n)
    } else {
        assert(s1@.take(len as int) != s1@) by {
            assert(s1@.take(len as int).len() != s1@.len());
        }
        assert(cs@.subrange(d + st, d + st + len) =~= s1@.take(len as int));
        source_path.substring_char(d + st, d + st + len)
    }
}

// ------------------------------------------------------------------
// Finding the imported entity
// ------------------------------------------------------------------

/// The entity `id` is in `map` and lives in the file `path`.
pub open spec fn entity_in_file(map: Map<Seq<char>, EntityInfo>, id: Seq<char>, path: Seq<char>) -> bool {
    map.contains_key(id) && map[id].file_path@ == path
}

/// The entity `id` is in `map` and its file stem is `stem`.
pub open spec fn entity_with_stem(map: Map<Seq<char>, EntityInfo>, id: Seq<char>, stem: Seq<char>) -> bool {
    map.contains_key(id) && file_stem_of(map[id].file_path@) == stem
}

/// The position of the first id of `ids` whose entity lives in `path`.
pub open spec fn first_in_file(ids: Seq<String>, map: Map<Seq<char>, EntityInfo>, path: Seq<char>) -> Option<int>
    decreases ids.len(),
{
    if ids.len() == 0 {
        None
    } else {
        match first_in_file(ids.drop_last(), map, path) {
            Some(i) => Some(i),
            None => if entity_in_file(map, ids.last()@, path) {
                Some(ids.len() - 1)
            } else {
                None
            },
        }
    }
}

/// The position of the first id of `ids` whose entity's file has stem `stem`.
pub open spec fn first_with_stem(ids: Seq<String>, map: Map<Seq<char>, EntityInfo>, stem: Seq<char>) -> Option<int>
    decreases ids.len(),
{
    if ids.len() == 0 {
        None
    } else {
        match first_with_stem(ids.drop_last(), map, stem) {
            Some(i) => Some(i),
            None => if entity_with_stem(map, ids.last()@, stem) {
                Some(ids.len() - 1)
            } else {
                None
            },
        }
    }
}

/// Taking the candidate paths in order, the position of the first id whose
/// entity lives in the first candidate that has one.
pub open spec fn first_for_candidates(
    cands: Seq<Seq<char>>,
    ids: Seq<String>,
    map: Map<Seq<char>, EntityInfo>,
) -> Option<int>
    decreases cands.len(),
{
    if cands.len() == 0 {
        None
    } else {
        match first_for_candidates(cands.drop_last(), ids, map) {
            Some(i) => Some(i),
            None => first_in_file(ids, map, cands.last()),
        }
    }
}

/// The position in `ids` of the entity that the import `source` in `file`
/// resolves to: by candidate file paths where the import names its module
/// explicitly, by file stem otherwise.
pub open spec fn import_target(
    ids: Seq<String>,
    source: Seq<char>,
    file: Seq<char>,
    exts: Seq<Seq<char>>,
    map: Map<Seq<char>, EntityInfo>,
) -> Option<int> {
    match file_candidates(file, source, exts) {
        Some(c) => first_for_candidates(c, ids, map),
        None => first_with_stem(ids, map, import_stem_of(source)),
    }
}

pub proof fn lemma_first_in_file_range(ids: Seq<String>, map: Map<Seq<char>, EntityInfo>, path: Seq<char>)
    ensures
        first_in_file(ids, map, path) matches Some(i) ==> 0 <= i < ids.len() && entity_in_file(
            map,
            ids[i]@,
            path,
        ),
    decreases ids.len(),
{
    if ids.len() > 0 {
        lemma_first_in_file_range(ids.drop_last(), map, path);
    }
}

pub proof fn lemma_first_with_stem_range(ids: Seq<String>, map: Map<Seq<char>, EntityInfo>, stem: Seq<char>)
    ensures
        first_with_stem(ids, map, stem) matches Some(i) ==> 0 <= i < ids.len() && entity_with_stem(
            map,
            ids[i]@,
            stem,
        ),
    decreases ids.len(),
{
    if ids.len() > 0 {
        lemma_first_with_stem_range(ids.drop_last(), map, stem);
    }
}

/// The position of the first id whose entity lives in `path`.
fn first_id_in_file(ids: &[String], map: &EntityMap, path: &String) -> (r: Option<usize>)
    ensures
        match r {
            None => first_in_file(ids@, map@, path@) is None,
            Some(i) => first_in_file(ids@, map@, path@) == Some(i as int),
        },
{
    let n = ids.len();
    assert(ids@.take(0) =~= Seq::<String>::empty());
    for i in 0..n
        invariant
            n == ids@.len(),
            first_in_file(ids@.take(i as int), map@, path@) is None,
    {
        assert(ids@.take(i + 1).drop_last() =~= ids@.take(i as int));
        assert(ids@.take(i + 1).last() == ids@[i as int]);
        let found = match map.get(ids[i].as_str()) {
            Some(e) => e.file_path == *path,
            None => false,
        };
        if found {
            assert(first_in_file(ids@.take(i + 1), map@, path@) == Some(i as int));
            proof {
                lemma_first_in_file_prefix(ids@, map@, path@, i + 1);
            }
            return Some(i);
        }
    }
    assert(ids@.take(n as int) =~= ids@);
    None
}

/// A match in a prefix is the match of the whole.
proof fn lemma_first_in_file_prefix(ids: Seq<String>, map: Map<Seq<char>, EntityInfo>, path: Seq<char>, k: int)
    requires
        0 <= k <= ids.len(),
        first_in_file(ids.take(k), map, path) is Some,
    ensures
        first_in_file(ids, map, path) == first_in_file(ids.take(k), map, path),
    decreases ids.len(),
{
    if k < ids.len() {
        assert(ids.drop_last().take(k) =~= ids.take(k));
        lemma_first_in_file_prefix(ids.drop_last(), map, path, k);
    } else {
        assert(ids.take(k) =~= ids);
    }
}

/// A match in a prefix is the match of the whole.
proof fn lemma_first_with_stem_prefix(ids: Seq<String>, map: Map<Seq<char>, EntityInfo>, stem: Seq<char>, k: int)
    requires
        0 <= k <= ids.len(),
        first_with_stem(ids.take(k), map, stem) is Some,
    ensures
        first_with_stem(ids, map, stem) == first_with_stem(ids.take(k), map, stem),
    decreases ids.len(),
{
    if k < ids.len() {
        assert(ids.drop_last().take(k) =~= ids.take(k));
        lemma_first_with_stem_prefix(ids.drop_last(), map, stem, k);
    } else {
        assert(ids.take(k) =~= ids);
    }
}

/// A match in a prefix of the candidates is the match of the whole.
proof fn lemma_first_for_candidates_prefix(
    cands: Seq<Seq<char>>,
    ids: Seq<String>,
    map: Map<Seq<char>, EntityInfo>,
    k: int,
)
    requires
        0 <= k <= cands.len(),
        first_for_candidates(cands.take(k), ids, map) is Some,
    ensures
        first_for_candidates(cands, ids, map) == first_for_candidates(cands.take(k), ids, map),
    decreases cands.len(),
{
    if k < cands.len() {
        assert(cands.drop_last().take(k) =~= cands.take(k));
        lemma_first_for_candidates_prefix(cands.drop_last(), ids, map, k);
    } else {
        assert(cands.take(k) =~= cands);
    }
}

/// The position of the first id whose entity's file has the stem `stem`.
fn first_id_with_stem(ids: &[String], map: &EntityMap, stem: &[char]) -> (r: Option<usize>)
    ensures
        match r {
            None => first_with_stem(ids@, map@, stem@) is None,
            Some(i) => first_with_stem(ids@, map@, stem@) == Some(i as int),
        },
{
    let n = ids.len();
    assert(ids@.take(0) =~= Seq::<String>::empty());
    for i in 0..n
        invariant
            n == ids@.len(),
            first_with_stem(ids@.take(i as int), map@, stem@) is None,
    {
        assert(ids@.take(i + 1).drop_last() =~= ids@.take(i as int));
        assert(ids@.take(i + 1).last() == ids@[i as int]);
        let found = match map.get(ids[i].as_str()) {
            Some(e) => {
                let fs = chars_of(file_stem(e.file_path.as_str()));
                chars_eq(fs.as_slice(), stem)
            },
            None => false,
        };
        if found {
            assert(first_with_stem(ids@.take(i + 1), map@, stem@) == Some(i as int));
            proof {
                lemma_first_with_stem_prefix(ids@, map@, stem@, i + 1);
            }
            return Some(i);
        }
    }
    assert(ids@.take(n as int) =~= ids@);
    None
}

/// The id in `target_ids` of the entity that the import `source_path` in
/// `file_path` resolves to.  Where the import names its module explicitly
/// (`./util`, `..pkg.mod`, or a dotted Python path), the candidate files are
/// tried in order and the first id living in the first matching candidate
/// is returned; otherwise the first id whose file stem is the import's
/// module name is.
pub fn find_import_target<'a>(
    target_ids: &'a [String],
    source_path: &str,
    file_path: &str,
    extensions: &[&str],
    entity_map: &EntityMap,
) -> (r: Option<&'a String>)
    ensures
        r is Some <==> import_target(
            target_ids@,
            source_path@,
            file_path@,
            strs_of(extensions@),
            entity_map@,
        ) is Some,
        r matches Some(x) ==> *x == target_ids@[import_target(
            target_ids@,
            source_path@,
            file_path@,
            strs_of(extensions@),
            entity_map@,
        )->0],
{
    match import_file_candidates(file_path, source_path, extensions) {
        Some(candidates) => {
            let ghost cs = strings_of(candidates@);
            let m = candidates.len();
            assert(cs.take(0) =~= Seq::<Seq<char>>::empty());
            for c in 0..m
                invariant
                    m == candidates@.len(),
                    cs == strings_of(candidates@),
                    file_candidates(file_path@, source_path@, strs_of(extensions@)) == Some(cs),
                    first_for_candidates(cs.take(c as int), target_ids@, entity_map@) is None,
            {
                assert(cs.take(c + 1).drop_last() =~= cs.take(c as int));
                assert(cs.take(c + 1).last() == candidates@[c as int]@);
                match first_id_in_file(target_ids, entity_map, &candidates[c]) {
                    Some(i) => {
                        proof {
                            lemma_first_in_file_range(target_ids@, entity_map@, cs[c as int]);
                        }
                        assert(first_for_candidates(cs.take(c + 1), target_ids@, entity_map@) == Some(
                            i as int,
                        ));
                        proof {
                            lemma_first_for_candidates_prefix(cs, target_ids@, entity_map@, c + 1);
                        }
                        return Some(&target_ids[i]);
                    },
                    None => {},
                }
            }
            assert(cs.take(m as int) =~= cs);
            None
        },
        None => {
            let module = chars_of(import_stem(source_path));
            proof {
                lemma_first_with_stem_range(target_ids@, entity_map@, module@);
            }
            match first_id_with_stem(target_ids, entity_map, module.as_slice()) {
                Some(i) => Some(&target_ids[i]),
                None => None,
            }
        },
    }
}

/// The import `source` in `importing` may refer to the file `candidate`: it
/// is one of the import's candidate paths, or, where the import names no
/// file explicitly, the file stems agree.
pub open spec fn source_matches_file(
    importing: Seq<char>,
    source: Seq<char>,
    exts: Seq<Seq<char>>,
    candidate: Seq<char>,
) -> bool {
    match file_candidates(importing, source, exts) {
        None => file_stem_of(candidate) == import_stem_of(source),
        Some(c) => c.contains(candidate),
    }
}

/// Whether the import `source_path` in `importing_file_path` may refer to
/// the file `candidate_file_path`: it is one of the import's candidate
/// paths, or, where the import names no file explicitly, the file stems
/// agree.
pub fn import_source_matches_file(
    importing_file_path: &str,
    source_path: &str,
    extensions: &[&str],
    candidate_file_path: &str,
) -> (r: bool)
    ensures
        r == source_matches_file(
            importing_file_path@,
            source_path@,
            strs_of(extensions@),
            candidate_file_path@,
        ),
{
    match import_file_candidates(importing_file_path, source_path, extensions) {
        None => {
            let a = chars_of(file_stem(candidate_file_path));
            let b = chars_of(import_stem(source_path));
            chars_eq(a.as_slice(), b.as_slice())
        },
        Some(paths) => {
            let target = candidate_file_path.to_owned();
            strings_contain(&paths, &target)
        },
    }
}

// ------------------------------------------------------------------
// Laws
// ------------------------------------------------------------------

proof fn lemma_first_for_candidates_witness(
    cands: Seq<Seq<char>>,
    ids: Seq<String>,
    map: Map<Seq<char>, EntityInfo>,
)
    ensures
        first_for_candidates(cands, ids, map) matches Some(i) ==> exists|k: int|
            0 <= k < cands.len() && #[trigger] first_in_file(ids, map, cands[k]) == Some(i),
    decreases cands.len(),
{
    if cands.len() > 0 {
        lemma_first_for_candidates_witness(cands.drop_last(), ids, map);
        if let Some(i) = first_for_candidates(cands.drop_last(), ids, map) {
            let k = choose|k: int|
                0 <= k < cands.drop_last().len() && #[trigger] first_in_file(
                    ids,
                    map,
                    cands.drop_last()[k],
                ) == Some(i);
            assert(cands[k] == cands.drop_last()[k]);
        } else if let Some(i) = first_in_file(ids, map, cands.last()) {
            assert(first_in_file(ids, map, cands[cands.len() - 1]) == Some(i));
        }
    }
}

/// The entity that `find_import_target` picks lives in a file that
/// `import_source_matches_file` accepts for the same import.
pub proof fn law_target_file_matches_import(
    ids: Seq<String>,
    source: Seq<char>,
    file: Seq<char>,
    exts: Seq<Seq<char>>,
    map: Map<Seq<char>, EntityInfo>,
)
    ensures
        import_target(ids, source, file, exts, map) matches Some(i) ==> {
            &&& 0 <= i < ids.len()
            &&& map.contains_key(ids[i]@)
            &&& source_matches_file(file, source, exts, map[ids[i]@].file_path@)
        },
{
    match file_candidates(file, source, exts) {
        Some(c) => {
            lemma_first_for_candidates_witness(c, ids, map);
            if let Some(i) = first_for_candidates(c, ids, map) {
                let k = choose|k: int| 0 <= k < c.len() && #[trigger] first_in_file(ids, map, c[k]) == Some(i);
                lemma_first_in_file_range(ids, map, c[k]);
                assert(c[k] == map[ids[i]@].file_path@);
            }
        },
        None => {
            lemma_first_with_stem_range(ids, map, import_stem_of(source));
        },
    }
}

proof fn lemma_first_in_file_found(ids: Seq<String>, map: Map<Seq<char>, EntityInfo>, path: Seq<char>, j: int)
    requires
        0 <= j < ids.len(),
        entity_in_file(map, ids[j]@, path),
    ensures
        first_in_file(ids, map, path) is Some,
    decreases ids.len(),
{
    if j < ids.len() - 1 {
        assert(ids.drop_last()[j] == ids[j]);
        lemma_first_in_file_found(ids.drop_last(), map, path, j);
    }
}

proof fn lemma_first_with_stem_found(ids: Seq<String>, map: Map<Seq<char>, EntityInfo>, stem: Seq<char>, j: int)
    requires
        0 <= j < ids.len(),
        entity_with_stem(map, ids[j]@, stem),
    ensures
        first_with_stem(ids, map, stem) is Some,
    decreases ids.len(),
{
    if j < ids.len() - 1 {
        assert(ids.drop_last()[j] == ids[j]);
        lemma_first_with_stem_found(ids.drop_last(), map, stem, j);
    }
}

proof fn lemma_first_for_candidates_found(
    cands: Seq<Seq<char>>,
    ids: Seq<String>,
    map: Map<Seq<char>, EntityInfo>,
    k: int,
)
    requires
        0 <= k < cands.len(),
        first_in_file(ids, map, cands[k]) is Some,
    ensures
        first_for_candidates(cands, ids, map) is Some,
    decreases cands.len(),
{
    if k < cands.len() - 1 {
        assert(cands.drop_last()[k] == cands[k]);
        lemma_first_for_candidates_found(cands.drop_last(), ids, map, k);
    }
}

/// Where some id of `ids` has an entity in `map` whose file the import
/// accepts (`import_source_matches_file`), `find_import_target` finds a
/// target: it gives up only where no such entity is there.
pub proof fn law_matching_entity_is_found(
    ids: Seq<String>,
    source: Seq<char>,
    file: Seq<char>,
    exts: Seq<Seq<char>>,
    map: Map<Seq<char>, EntityInfo>,
    j: int,
)
    requires
        0 <= j < ids.len(),
        map.contains_key(ids[j]@),
        source_matches_file(file, source, exts, map[ids[j]@].file_path@),
    ensures
        import_target(ids, source, file, exts, map) is Some,
{
    match file_candidates(file, source, exts) {
        Some(c) => {
            let path = map[ids[j]@].file_path@;
            let k = choose|k: int| 0 <= k < c.len() && c[k] == path;
            lemma_first_in_file_found(ids, map, c[k], j);
            lemma_first_for_candidates_found(c, ids, map, k);
        },
        None => {
            lemma_first_with_stem_found(ids, map, import_stem_of(source), j);
        },
    }
}

pub open spec fn no_duplicates(s: Seq<Seq<char>>) -> bool {
    forall|i: int, j: int| 0 <= i < s.len() && 0 <= j < s.len() && i != j ==> #[trigger] s[i] != #[trigger] s[j]
}

proof fn lemma_dedup_distinct(s: Seq<Seq<char>>)
    ensures
        no_duplicates(dedup(s)),
    decreases s.len(),
{
    if s.len() > 0 {
        lemma_dedup_distinct(s.drop_last());
        lemma_dedup_contains(s.drop_last());
        if !s.drop_last().contains(s.last()) {
            let d = dedup(s.drop_last());
            let e = d.push(s.last());
            assert forall|i: int, j: int| 0 <= i < e.len() && 0 <= j < e.len() && i != j implies #[trigger] e[i]
                != #[trigger] e[j] by {
                if i == d.len() {
                    assert(e[j] == d[j]);
                    assert(d.contains(d[j]));
                } else if j == d.len() {
                    assert(e[i] == d[i]);
                    assert(d.contains(d[i]));
                } else {
                    assert(e[i] == d[i] && e[j] == d[j]);
                }
            }
        }
    }
}

/// An import never gets the same candidate path twice.
pub proof fn law_candidates_are_distinct(file: Seq<char>, source: Seq<char>, exts: Seq<Seq<char>>)
    ensures
        file_candidates(file, source, exts) matches Some(c) ==> no_duplicates(c),
{
    if let Some(names) = module_names(file, source, exts) {
        let m = join_names(names);
        if !has_known_ext(m, exts) {
            lemma_dedup_distinct(raw_candidates(m, exts));
        }
    }
}

/// An import that names its file with one of the language's extensions
/// (`./util.ts`) has that file as its only candidate: no other extension
/// is tried.
pub proof fn law_named_file_is_sole_candidate(
    file: Seq<char>,
    source: Seq<char>,
    exts: Seq<Seq<char>>,
    ext: int,
)
    requires
        module_names(file, source, exts) is Some,
        0 <= ext < exts.len(),
        ends_with(join_names(module_names(file, source, exts)->0), exts[ext]),
    ensures
        file_candidates(file, source, exts) == Some(seq![join_names(module_names(file, source, exts)->0)]),
{
}

/// A name inside the repository: not empty, not `.` or `..`, no `/`.
pub open spec fn plain_name(x: Seq<char>) -> bool {
    x.len() > 0 && x != seq!['.'] && x != seq!['.', '.'] && !x.contains('/')
}

pub open spec fn part_ok(p: PathPart) -> bool {
    p is Normal ==> plain_name(p->Normal_0)
}

pub open spec fn parts_ok(c: Seq<PathPart>) -> bool {
    forall|i: int| 0 <= i < c.len() ==> #[trigger] part_ok(c[i])
}

proof fn lemma_split_has_no_sep(s: Seq<char>, sep: char)
    ensures
        forall|i: int| 0 <= i < split_on(s, sep).len() ==> !(#[trigger] split_on(s, sep)[i]).contains(sep),
    decreases s.len(),
{
    lemma_split_nonempty(s, sep);
    if s.len() > 0 {
        lemma_split_has_no_sep(s.drop_last(), sep);
        lemma_split_nonempty(s.drop_last(), sep);
        let p = split_on(s.drop_last(), sep);
        let q = split_on(s, sep);
        assert forall|i: int| 0 <= i < q.len() implies !(#[trigger] q[i]).contains(sep) by {
            if s.last() == sep {
                if i < p.len() {
                    assert(q[i] == p[i]);
                } else {
                    assert(q[i] =~= Seq::<char>::empty());
                }
            } else {
                if i < p.len() - 1 {
                    assert(q[i] == p[i]);
                } else {
                    let x = p.last().push(s.last());
                    assert(q[i] == x);
                    if x.contains(sep) {
                        let k = choose|k: int| 0 <= k < x.len() && x[k] == sep;
                        assert(p[p.len() - 1][k] == sep);
                    }
                }
            }
        }
    }
}

proof fn lemma_piece_part_ok(p: Seq<char>)
    requires
        !p.contains('/'),
    ensures
        parts_ok(piece_part(p)),
{
}

proof fn lemma_tail_parts_ok(ps: Seq<Seq<char>>)
    requires
        forall|i: int| 0 <= i < ps.len() ==> !(#[trigger] ps[i]).contains('/'),
    ensures
        parts_ok(tail_parts(ps)),
    decreases ps.len(),
{
    if ps.len() > 0 {
        lemma_tail_parts_ok(ps.drop_last());
        assert(!ps[ps.len() - 1].contains('/'));
        lemma_piece_part_ok(ps.last());
        let a = tail_parts(ps.drop_last());
        let b = piece_part(ps.last());
        assert forall|i: int| 0 <= i < (a + b).len() implies #[trigger] part_ok((a + b)[i]) by {
            if i < a.len() {
                assert((a + b)[i] == a[i]);
            } else {
                assert((a + b)[i] == b[i - a.len()]);
            }
        }
    }
}

proof fn lemma_components_ok(s: Seq<char>)
    ensures
        parts_ok(components(s)),
{
    let ps = split_on(s, '/');
    lemma_split_nonempty(s, '/');
    lemma_split_has_no_sep(s, '/');
    assert(!ps[0].contains('/'));
    lemma_piece_part_ok(ps[0]);
    assert forall|i: int| 0 <= i < ps.skip(1).len() implies !(#[trigger] ps.skip(1)[i]).contains('/') by {
        assert(ps.skip(1)[i] == ps[i + 1]);
    }
    lemma_tail_parts_ok(ps.skip(1));
    let head = if s.len() > 0 && s[0] == '/' {
        seq![PathPart::RootDir]
    } else if ps[0] == seq!['.'] {
        seq![PathPart::CurDir]
    } else {
        piece_part(ps[0])
    };
    let t = tail_parts(ps.skip(1));
    assert forall|i: int| 0 <= i < (head + t).len() implies #[trigger] part_ok((head + t)[i]) by {
        if i < head.len() {
            assert((head + t)[i] == head[i]);
        } else {
            assert((head + t)[i] == t[i - head.len()]);
        }
    }
}

proof fn lemma_concat_ok(a: Seq<PathPart>, b: Seq<PathPart>)
    requires
        parts_ok(a),
        parts_ok(b),
    ensures
        parts_ok(a + b),
{
    assert forall|i: int| 0 <= i < (a + b).len() implies #[trigger] part_ok((a + b)[i]) by {
        if i < a.len() {
            assert((a + b)[i] == a[i]);
        } else {
            assert((a + b)[i] == b[i - a.len()]);
        }
    }
}

proof fn lemma_drop_last_ok(a: Seq<PathPart>)
    requires
        parts_ok(a),
        a.len() > 0,
    ensures
        parts_ok(a.drop_last()),
{
    assert forall|i: int| 0 <= i < a.drop_last().len() implies #[trigger] part_ok(a.drop_last()[i]) by {
        assert(a.drop_last()[i] == a[i]);
    }
}

proof fn lemma_ancestor_ok(b: Seq<PathPart>, n: nat)
    requires
        parts_ok(b),
    ensures
        ancestor_parts(b, n) matches Some(a) ==> parts_ok(a),
    decreases n,
{
    if n > 0 {
        if let Some(p) = parent_parts(b) {
            lemma_drop_last_ok(b);
            lemma_ancestor_ok(p, (n - 1) as nat);
        }
    }
}

proof fn lemma_base_ok(file: Seq<char>)
    ensures
        parts_ok(base_parts(file)),
{
    lemma_components_ok(file);
    if parent_parts(components(file)) is Some {
        lemma_drop_last_ok(components(file));
    }
}

proof fn lemma_joined_ok(b: Seq<PathPart>, s: Seq<char>)
    requires
        parts_ok(b),
    ensures
        parts_ok(joined_parts(b, s)),
{
    lemma_components_ok(s);
    lemma_concat_ok(b, components(s));
}

proof fn lemma_normalize_plain(c: Seq<PathPart>)
    requires
        parts_ok(c),
    ensures
        normalize_parts(c) matches Some(names) ==> forall|k: int|
            0 <= k < names.len() ==> plain_name(#[trigger] names[k]),
    decreases c.len(),
{
    if c.len() > 0 {
        lemma_drop_last_ok(c);
        lemma_normalize_plain(c.drop_last());
        if let Some(st) = normalize_parts(c.drop_last()) {
            assert(part_ok(c[c.len() - 1]));
            if let Some(names) = normalize_parts(c) {
                assert forall|k: int| 0 <= k < names.len() implies plain_name(#[trigger] names[k]) by {
                    if c.last() is ParentDir {
                        assert(names[k] == st[k]);
                    } else if c.last() is Normal {
                        if k < st.len() {
                            assert(names[k] == st[k]);
                        }
                    }
                }
            }
        }
    }
}

/// An import that names its module explicitly resolves to plain names
/// inside the repository: no empty name, no `.` or `..` step and no `/`
/// within a name, so the module path never leaves the repository.
pub proof fn law_module_names_stay_in_repository(file: Seq<char>, source: Seq<char>, exts: Seq<Seq<char>>)
    ensures
        module_names(file, source, exts) matches Some(names) ==> forall|k: int|
            0 <= k < names.len() ==> plain_name(#[trigger] names[k]),
{
    let sp = trim_ws(source);
    lemma_base_ok(file);
    if sp.len() > 0 {
        if sp[0] == '.' && !starts_with(sp, dot_slash()) && !starts_with(sp, dot_dot_slash()) {
            let d = leading_count(sp, '.');
            if d > 0 {
                lemma_ancestor_ok(base_parts(file), (d - 1) as nat);
                if let Some(b) = ancestor_parts(base_parts(file), (d - 1) as nat) {
                    let rem = replace_char(sp.skip(d as int), '.', '/');
                    lemma_normalize_plain(b);
                    lemma_joined_ok(b, rem);
                    lemma_normalize_plain(joined_parts(b, rem));
                }
            }
        } else if starts_with(sp, dot_slash()) || starts_with(sp, dot_dot_slash()) {
            lemma_joined_ok(base_parts(file), sp);
            lemma_normalize_plain(joined_parts(base_parts(file), sp));
        } else {
            lemma_components_ok(replace_char(sp, '.', '/'));
            lemma_normalize_plain(components(replace_char(sp, '.', '/')));
        }
    }
}


/// A piece without separators splits into itself.
proof fn lemma_split_no_sep(b: Seq<char>, sep: char)
    requires
        !b.contains(sep),
    ensures
        split_on(b, sep) == seq![b],
    decreases b.len(),
{
    if b.len() > 0 {
        assert(!b.drop_last().contains(sep)) by {
            if b.drop_last().contains(sep) {
                let i = choose|i: int| 0 <= i < b.drop_last().len() && b.drop_last()[i] == sep;
                assert(b[i] == sep);
            }
        }
        lemma_split_no_sep(b.drop_last(), sep);
        assert(b.last() != sep) by {
            assert(b[b.len() - 1] == b.last());
        }
        assert(b.drop_last().push(b.last()) =~= b);
        assert(seq![b.drop_last()].update(0, b.drop_last().push(b.last())) =~= seq![b]);
    } else {
        assert(b =~= Seq::<char>::empty());
    }
}

/// Text without separators appended to `a` extends the last piece of `a`.
proof fn lemma_split_append(a: Seq<char>, b: Seq<char>, sep: char)
    requires
        !b.contains(sep),
    ensures
        split_on(a + b, sep) == split_on(a, sep).update(
            split_on(a, sep).len() - 1,
            split_on(a, sep).last() + b,
        ),
    decreases b.len(),
{
    lemma_split_nonempty(a, sep);
    let pa = split_on(a, sep);
    if b.len() == 0 {
        assert(a + b =~= a);
        assert(pa.update(pa.len() - 1, pa.last() + b) =~= pa);
    } else {
        let b0 = b.drop_last();
        assert(!b0.contains(sep)) by {
            if b0.contains(sep) {
                let i = choose|i: int| 0 <= i < b0.len() && b0[i] == sep;
                assert(b[i] == sep);
            }
        }
        lemma_split_append(a, b0, sep);
        assert((a + b).drop_last() =~= a + b0);
        assert((a + b).last() == b.last());
        assert(b.last() != sep) by {
            assert(b[b.len() - 1] == b.last());
        }
        let p = split_on(a + b0, sep);
        assert(p.len() == pa.len());
        assert(p.last() == pa.last() + b0);
        assert((pa.last() + b0).push(b.last()) =~= pa.last() + b);
        assert(p.update(p.len() - 1, p.last().push(b.last())) =~= pa.update(pa.len() - 1, pa.last() + b));
    }
}

/// Plain names joined by `/` split back into the names.
proof fn lemma_split_joined(names: Seq<Seq<char>>)
    requires
        names.len() > 0,
        forall|k: int| 0 <= k < names.len() ==> plain_name(#[trigger] names[k]),
    ensures
        split_on(join_names(names), '/') == names,
    decreases names.len(),
{
    if names.len() == 1 {
        assert(plain_name(names[0]));
        lemma_split_no_sep(names[0], '/');
        assert(seq![names[0]] =~= names);
    } else {
        let front = names.drop_last();
        assert forall|k: int| 0 <= k < front.len() implies plain_name(#[trigger] front[k]) by {
            assert(front[k] == names[k]);
        }
        lemma_split_joined(front);
        let j = join_names(front);
        let a = j + seq!['/'];
        assert(a.drop_last() =~= j);
        assert(a.last() == '/');
        assert(split_on(a, '/') == split_on(j, '/').push(Seq::<char>::empty()));
        assert(plain_name(names[names.len() - 1]));
        lemma_split_append(a, names.last(), '/');
        assert(join_names(names) == a + names.last());
        assert(split_on(a, '/').update(split_on(a, '/').len() - 1, split_on(a, '/').last() + names.last())
            =~= names);
    }
}

/// Plain names, each as a normal component.
pub open spec fn normal_parts(names: Seq<Seq<char>>) -> Seq<PathPart> {
    names.map_values(|x: Seq<char>| PathPart::Normal(x))
}

proof fn lemma_tail_parts_plain(ps: Seq<Seq<char>>)
    requires
        forall|k: int| 0 <= k < ps.len() ==> plain_name(#[trigger] ps[k]),
    ensures
        tail_parts(ps) == normal_parts(ps),
    decreases ps.len(),
{
    if ps.len() > 0 {
        let front = ps.drop_last();
        assert forall|k: int| 0 <= k < front.len() implies plain_name(#[trigger] front[k]) by {
            assert(front[k] == ps[k]);
        }
        lemma_tail_parts_plain(front);
        assert(plain_name(ps[ps.len() - 1]));
        assert(piece_part(ps.last()) == seq![PathPart::Normal(ps.last())]);
        assert(normal_parts(front) + seq![PathPart::Normal(ps.last())] =~= normal_parts(ps));
    } else {
        assert(normal_parts(ps) =~= Seq::<PathPart>::empty());
    }
}

proof fn lemma_normalize_normal_parts(names: Seq<Seq<char>>)
    ensures
        normalize_parts(normal_parts(names)) == Some(names),
    decreases names.len(),
{
    if names.len() > 0 {
        lemma_normalize_normal_parts(names.drop_last());
        assert(normal_parts(names).drop_last() =~= normal_parts(names.drop_last()));
        assert(names.drop_last().push(names.last()) =~= names);
    } else {
        assert(normal_parts(names) =~= Seq::<PathPart>::empty());
    }
}

/// Plain names joined by `/` have the names as their components.
proof fn lemma_components_of_joined(names: Seq<Seq<char>>)
    requires
        forall|k: int| 0 <= k < names.len() ==> plain_name(#[trigger] names[k]),
    ensures
        components(join_names(names)) == normal_parts(names),
{
    let s = join_names(names);
    if names.len() == 0 {
        assert(s =~= Seq::<char>::empty());
        assert(split_on(s, '/') =~= seq![Seq::<char>::empty()]);
        assert(piece_part(Seq::<char>::empty()) =~= Seq::<PathPart>::empty());
        assert(split_on(s, '/').skip(1) =~= Seq::<Seq<char>>::empty());
        assert(normal_parts(names) =~= Seq::<PathPart>::empty());
        assert(components(s) =~= Seq::<PathPart>::empty());
    } else {
        lemma_split_joined(names);
        let ps = split_on(s, '/');
        assert(plain_name(names[0]));
        lemma_join_starts_with_first(names);
        assert(s[0] == names[0][0]);
        assert(!names[0].contains('/'));
        assert(s[0] != '/') by {
            assert(names[0][0] != '/') by {
                if names[0][0] == '/' {
                    assert(names[0].contains('/'));
                }
            }
        }
        assert(piece_part(ps[0]) == seq![PathPart::Normal(names[0])]);
        let rest = ps.skip(1);
        assert forall|k: int| 0 <= k < rest.len() implies plain_name(#[trigger] rest[k]) by {
            assert(rest[k] == names[k + 1]);
        }
        lemma_tail_parts_plain(rest);
        assert(seq![PathPart::Normal(names[0])] + normal_parts(rest) =~= normal_parts(names));
    }
}

/// A non-empty join starts with the first name.
proof fn lemma_join_starts_with_first(names: Seq<Seq<char>>)
    requires
        names.len() > 0,
        names[0].len() > 0,
    ensures
        join_names(names).len() >= names[0].len(),
        forall|i: int| 0 <= i < names[0].len() ==> #[trigger] join_names(names)[i] == names[0][i],
    decreases names.len(),
{
    if names.len() > 1 {
        let front = names.drop_last();
        assert(front[0] == names[0]);
        lemma_join_starts_with_first(front);
        let j = join_names(front);
        assert forall|i: int| 0 <= i < names[0].len() implies #[trigger] join_names(names)[i] == names[0][i] by {
            assert(join_names(names) == j + seq!['/'] + names.last());
            assert(join_names(names)[i] == j[i]);
        }
    }
}

/// The path `s` normalized inside the repository: its components resolved
/// to names and joined by `/`, or nothing where it leaves the repository
/// (a root, or a `..` with no name before it).
pub open spec fn normalized_path(s: Seq<char>) -> Option<Seq<char>> {
    match normalize_parts(components(s)) {
        Some(names) => Some(join_names(names)),
        None => None,
    }
}

/// A normalized repository path is made of plain names: no empty, `.` or
/// `..` segment, and it does not start with `/`; its segments are exactly
/// the names it was joined from; and normalizing it again changes nothing.
pub proof fn law_normalized_path_is_plain_and_stable(s: Seq<char>)
    ensures
        normalize_parts(components(s)) matches Some(names) ==> {
            &&& forall|k: int| 0 <= k < names.len() ==> plain_name(#[trigger] names[k])
            &&& !(join_names(names).len() > 0 && join_names(names)[0] == '/')
            &&& (names.len() > 0 ==> split_on(join_names(names), '/') == names)
            &&& normalize_parts(components(join_names(names))) == Some(names)
            &&& normalized_path(join_names(names)) == Some(join_names(names))
        },
{
    lemma_components_ok(s);
    lemma_normalize_plain(components(s));
    if let Some(names) = normalize_parts(components(s)) {
        lemma_components_of_joined(names);
        lemma_normalize_normal_parts(names);
        if names.len() > 0 {
            lemma_split_joined(names);
            assert(plain_name(names[0]));
            lemma_join_starts_with_first(names);
            assert(join_names(names)[0] == names[0][0]);
            assert(names[0][0] != '/') by {
                if names[0][0] == '/' {
                    assert(names[0].contains('/'));
                }
            }
        } else {
            assert(join_names(names) =~= Seq::<char>::empty());
        }
    }
}

/// The number of names a component sequence has open: each name opens
/// one, each `..` closes one.
pub open spec fn depth(c: Seq<PathPart>) -> int
    decreases c.len(),
{
    if c.len() == 0 {
        0
    } else {
        depth(c.drop_last()) + match c.last() {
            PathPart::Normal(_) => 1int,
            PathPart::ParentDir => -1int,
            _ => 0int,
        }
    }
}

/// The component at `i` leaves the repository: a root, or a `..` with no
/// name left open before it.
pub open spec fn escapes_at(c: Seq<PathPart>, i: int) -> bool {
    c[i] is RootDir || (c[i] is ParentDir && depth(c.take(i)) <= 0)
}

proof fn lemma_normalize_depth(c: Seq<PathPart>)
    ensures
        normalize_parts(c) matches Some(st) ==> st.len() == depth(c),
    decreases c.len(),
{
    if c.len() > 0 {
        lemma_normalize_depth(c.drop_last());
    }
}

/// Normalizing fails exactly where some component leaves the repository.
proof fn lemma_normalize_none_iff_escape(c: Seq<PathPart>)
    ensures
        normalize_parts(c) is None <==> exists|i: int| 0 <= i < c.len() && #[trigger] escapes_at(c, i),
    decreases c.len(),
{
    if c.len() > 0 {
        let f = c.drop_last();
        let n = c.len() - 1;
        lemma_normalize_none_iff_escape(f);
        lemma_normalize_depth(f);
        assert(c.take(n) =~= f);
        assert forall|i: int| 0 <= i < n implies #[trigger] escapes_at(c, i) == escapes_at(f, i) by {
            assert(c.take(i) =~= f.take(i));
            assert(c[i] == f[i]);
        }
        if normalize_parts(c) is None {
            if normalize_parts(f) is None {
                let i = choose|i: int| 0 <= i < f.len() && #[trigger] escapes_at(f, i);
                assert(escapes_at(c, i));
            } else {
                assert(escapes_at(c, n));
            }
        } else {
            assert forall|i: int| 0 <= i < c.len() implies !#[trigger] escapes_at(c, i) by {
                if i < n {
                    assert(escapes_at(c, i) == escapes_at(f, i));
                } else {
                    assert(i == n);
                }
            }
        }
    }
}

proof fn lemma_tail_parts_no_root(ps: Seq<Seq<char>>)
    ensures
        forall|i: int| 0 <= i < tail_parts(ps).len() ==> !(#[trigger] tail_parts(ps)[i] is RootDir),
    decreases ps.len(),
{
    if ps.len() > 0 {
        lemma_tail_parts_no_root(ps.drop_last());
        let a = tail_parts(ps.drop_last());
        let b = piece_part(ps.last());
        assert forall|i: int| 0 <= i < tail_parts(ps).len() implies !(#[trigger] tail_parts(ps)[i] is RootDir) by {
            if i < a.len() {
                assert(tail_parts(ps)[i] == a[i]);
            } else {
                assert(tail_parts(ps)[i] == b[i - a.len()]);
            }
        }
    }
}

/// A path has a root component exactly where it starts with `/`, and then
/// only as its first component.
proof fn lemma_components_root(s: Seq<char>)
    ensures
        (exists|i: int| 0 <= i < components(s).len() && #[trigger] components(s)[i] is RootDir) <==> (s.len()
            > 0 && s[0] == '/'),
        s.len() > 0 && s[0] == '/' ==> components(s)[0] is RootDir,
{
    let ps = split_on(s, '/');
    lemma_split_nonempty(s, '/');
    lemma_tail_parts_no_root(ps.skip(1));
    let head = if s.len() > 0 && s[0] == '/' {
        seq![PathPart::RootDir]
    } else if ps[0] == seq!['.'] {
        seq![PathPart::CurDir]
    } else {
        piece_part(ps[0])
    };
    let t = tail_parts(ps.skip(1));
    assert(components(s) == head + t);
    if s.len() > 0 && s[0] == '/' {
        assert(components(s)[0] is RootDir);
    } else {
        assert forall|i: int| 0 <= i < components(s).len() implies !(#[trigger] components(s)[i] is RootDir) by {
            if i < head.len() {
                assert(components(s)[i] == head[i]);
            } else {
                assert(components(s)[i] == t[i - head.len()]);
            }
        }
    }
}

/// Normalizing a repository path fails exactly where it leaves the
/// repository: it starts at the root (`/etc`), or one of its `..` steps has
/// no name left before it to undo (`../x`, `a/../../b`).  (A `&str` path has
/// no non-UTF-8 component.)
pub proof fn law_normalization_fails_exactly_when_escaping(s: Seq<char>)
    ensures
        normalized_path(s) is None <==> ((s.len() > 0 && s[0] == '/') || exists|i: int|
            0 <= i < components(s).len() && #[trigger] components(s)[i] is ParentDir && depth(
                components(s).take(i),
            ) <= 0),
{
    let c = components(s);
    lemma_normalize_none_iff_escape(c);
    lemma_components_root(s);
    if normalized_path(s) is None {
        let i = choose|i: int| 0 <= i < c.len() && #[trigger] escapes_at(c, i);
        if c[i] is RootDir {
            assert(s.len() > 0 && s[0] == '/');
        } else {
            assert(c[i] is ParentDir && depth(c.take(i)) <= 0);
        }
    } else {
        if s.len() > 0 && s[0] == '/' {
            assert(escapes_at(c, 0));
        }
        assert forall|i: int| 0 <= i < c.len() && #[trigger] c[i] is ParentDir implies depth(c.take(i)) > 0 by {
            if depth(c.take(i)) <= 0 {
                assert(escapes_at(c, i));
            }
        }
    }
}

/// The source-file extensions that stems drop.
pub open spec fn source_exts() -> Seq<Seq<char>> {
    seq![
        seq!['.', 'p', 'y'],
        seq!['.', 'r', 's'],
        seq!['.', 't', 's'],
        seq!['.', 't', 's', 'x'],
        seq!['.', 'j', 's'],
        seq!['.', 'j', 's', 'x'],
        seq!['.', 'g', 'o'],
    ]
}

proof fn lemma_ends_with_concat(n: Seq<char>, e: Seq<char>, suf: Seq<char>)
    requires
        suf.len() > 0,
        e.len() > 0,
    ensures
        ends_with(n + e, suf) && suf.len() <= e.len() ==> ends_with(e, suf),
        ends_with(n + e, suf) ==> e.last() == suf.last(),
        ends_with(n + e, e),
{
    let s = n + e;
    if ends_with(s, suf) {
        assert(s.last() == suf.last()) by {
            assert(s.skip(s.len() - suf.len())[suf.len() - 1] == s[s.len() - 1]);
        }
        assert(s.last() == e.last());
        if suf.len() <= e.len() {
            assert(s.skip(s.len() - suf.len()) =~= e.skip(e.len() - suf.len()));
        }
    }
    assert(s.skip(s.len() - e.len()) =~= e);
}

proof fn lemma_last_segment_append(a: Seq<char>, b: Seq<char>, c: char)
    requires
        !b.contains(c),
    ensures
        last_segment(a + seq![c] + b, c) == b,
    decreases b.len(),
{
    if b.len() == 0 {
        assert(a + seq![c] + b =~= a.push(c));
        assert((a.push(c)).drop_last() =~= a);
    } else {
        let b0 = b.drop_last();
        assert(!b0.contains(c)) by {
            if b0.contains(c) {
                let i = choose|i: int| 0 <= i < b0.len() && b0[i] == c;
                assert(b[i] == c);
            }
        }
        lemma_last_segment_append(a, b0, c);
        assert((a + seq![c] + b).drop_last() =~= a + seq![c] + b0);
        assert((a + seq![c] + b).last() == b.last());
        assert(b.last() != c) by {
            assert(b[b.len() - 1] == b.last());
        }
        assert(b0.push(b.last()) =~= b);
    }
}

/// A file name `n` followed by one of the source extensions has the stem
/// `n`, whatever `n` itself ends with.
proof fn lemma_strip_known_ext(n: Seq<char>, k: int)
    requires
        0 <= k < source_exts().len(),
    ensures
        strip_source_ext(n + source_exts()[k]) == n,
{
    let e = source_exts()[k];
    let s = n + e;
    let py = seq!['.', 'p', 'y'];
    let rs = seq!['.', 'r', 's'];
    let ts = seq!['.', 't', 's'];
    let tsx = seq!['.', 't', 's', 'x'];
    let js = seq!['.', 'j', 's'];
    let jsx = seq!['.', 'j', 's', 'x'];
    let go = seq!['.', 'g', 'o'];
    lemma_ends_with_concat(n, e, py);
    lemma_ends_with_concat(n, e, rs);
    lemma_ends_with_concat(n, e, ts);
    lemma_ends_with_concat(n, e, tsx);
    lemma_ends_with_concat(n, e, js);
    lemma_ends_with_concat(n, e, jsx);
    lemma_ends_with_concat(n, e, go);
    assert(s.take(s.len() - e.len()) =~= n);
    if k == 0 {
        assert(e == py);
    } else if k == 1 {
        assert(e == rs);
        assert(!ends_with(rs, py)) by {
            assert(rs.skip(0)[1] != py[1]);
        }
    } else if k == 2 {
        assert(e == ts);
        assert(!ends_with(ts, rs)) by {
            assert(ts.skip(0)[1] != rs[1]);
        }
    } else if k == 3 {
        assert(e == tsx);
        assert(!ends_with(tsx, py)) by {
            assert(tsx.skip(1)[2] != py[2]);
        }
        assert(!ends_with(tsx, rs)) by {
            assert(tsx.skip(1)[2] != rs[2]);
        }
        assert(!ends_with(tsx, ts)) by {
            assert(tsx.skip(1)[2] != ts[2]);
        }
    } else if k == 4 {
        assert(e == js);
        assert(!ends_with(js, rs)) by {
            assert(js.skip(0)[1] != rs[1]);
        }
        assert(!ends_with(js, ts)) by {
            assert(js.skip(0)[1] != ts[1]);
        }
    } else if k == 5 {
        assert(e == jsx);
        assert(!ends_with(jsx, py)) by {
            assert(jsx.skip(1)[2] != py[2]);
        }
        assert(!ends_with(jsx, rs)) by {
            assert(jsx.skip(1)[2] != rs[2]);
        }
        assert(!ends_with(jsx, ts)) by {
            assert(jsx.skip(1)[2] != ts[2]);
        }
        assert(!ends_with(jsx, tsx)) by {
            assert(jsx.skip(0)[1] != tsx[1]);
        }
        assert(!ends_with(jsx, js)) by {
            assert(jsx.skip(1)[2] != js[2]);
        }
    } else {
        assert(e == go);
    }
}

/// The file stem of `dir/NAME.ext`, for a name without `/` and any of the
/// source extensions (`.py`, `.rs`, `.ts`, `.tsx`, `.js`, `.jsx`, `.go`),
/// is `NAME`; so is that of `NAME.ext` on its own.
pub proof fn law_file_stem_drops_source_ext(dir: Seq<char>, name: Seq<char>, k: int)
    requires
        0 <= k < source_exts().len(),
        !name.contains('/'),
    ensures
        file_stem_of(dir + seq!['/'] + name + source_exts()[k]) == name,
        file_stem_of(name + source_exts()[k]) == name,
{
    let e = source_exts()[k];
    assert(!(name + e).contains('/')) by {
        if (name + e).contains('/') {
            let i = choose|i: int| 0 <= i < (name + e).len() && (name + e)[i] == '/';
            if i < name.len() {
                assert(name[i] == '/');
            } else {
                assert(e[i - name.len()] == '/');
            }
        }
    }
    assert(dir + seq!['/'] + name + e =~= dir + seq!['/'] + (name + e));
    lemma_last_segment_append(dir, name + e, '/');
    lemma_last_segment_without_sep(name + e, '/');
    lemma_strip_known_ext(name, k);
}

/// A plain module name (no `/`, no `.`) imports the module of that name:
/// its import stem is itself, and so it matches every source file
/// `dir/NAME.ext` by stem.
pub proof fn law_plain_import_matches_its_files(dir: Seq<char>, name: Seq<char>, k: int)
    requires
        0 <= k < source_exts().len(),
        !name.contains('/'),
        !name.contains('.'),
    ensures
        import_stem_of(name) == name,
        file_stem_of(dir + seq!['/'] + name + source_exts()[k]) == import_stem_of(name),
{
    law_file_stem_drops_source_ext(dir, name, k);
    if name.len() > 0 {
        assert(name[0] != '.');
    }
    assert(trim_start_char(name, '.') == name);
    lemma_last_segment_without_sep(name, '/');
    lemma_last_segment_without_sep(name, '.');
    assert(strip_source_ext(name) == name) by {
        assert forall|suf: Seq<char>| suf.len() > 0 && suf[0] == '.' implies !ends_with(name, suf) by {
            if ends_with(name, suf) {
                assert(name.skip(name.len() - suf.len())[0] == name[name.len() - suf.len()]);
            }
        }
    }
}
} // verus!
