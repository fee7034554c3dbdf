//! Output path resolver: derives a candidate filename from a URL, splits
//! it into stem and extension, and finds the first numbered variant that
//! does not collide with an existing name.

use vstd::prelude::*;

verus! {

/// The index of the last occurrence of `c` in `s`, or -1 when `c` does
/// not occur.
pub open spec fn last_index_of(s: Seq<char>, c: char) -> int
    decreases s.len(),
{
    if s.len() == 0 {
        -1
    } else if s.last() == c {
        s.len() - 1
    } else {
        last_index_of(s.drop_last(), c)
    }
}

/// `last_index_of` stays inside `[-1, len)` and marks an occurrence.
proof fn lemma_last_index_bounds(s: Seq<char>, c: char)
    ensures
        -1 <= last_index_of(s, c) < s.len(),
        last_index_of(s, c) >= 0 ==> s[last_index_of(s, c)] == c,
    decreases s.len(),
{
    if s.len() > 0 && s.last() != c {
        lemma_last_index_bounds(s.drop_last(), c);
    }
}

/// If `c` stands at `j` and nowhere later, then `j` is the last index.
proof fn lemma_last_index_found(s: Seq<char>, c: char, j: int)
    requires
        0 <= j < s.len(),
        s[j] == c,
        forall|t: int| j < t < s.len() ==> s[t] != c,
    ensures
        last_index_of(s, c) == j,
    decreases s.len(),
{
    if j < s.len() - 1 {
        lemma_last_index_found(s.drop_last(), c, j);
    }
}

/// If `c` occurs nowhere in `s`, the last index is -1.
proof fn lemma_last_index_absent(s: Seq<char>, c: char)
    requires
        forall|t: int| 0 <= t < s.len() ==> s[t] != c,
    ensures
        last_index_of(s, c) == -1,
    decreases s.len(),
{
    if s.len() > 0 {
        lemma_last_index_absent(s.drop_last(), c);
    }
}

/// What follows the last occurrence of `c` in `s` (all of `s` when `c`
/// does not occur).
pub open spec fn suffix_after_last(s: Seq<char>, c: char) -> Seq<char> {
    s.subrange(last_index_of(s, c) + 1, s.len() as int)
}

/// The candidate filename carried by a URL path: what follows the last
/// slash, or the literal name `unnamed` when that is empty.
pub open spec fn filename_of(path: Seq<char>) -> Seq<char> {
    let f = suffix_after_last(path, '/');
    if f.len() == 0 {
        "unnamed"@
    } else {
        f
    }
}

/// The stem of a filename: everything before the last dot, except that a
/// name whose only dot is its first character has no extension at all.
pub open spec fn stem_of(name: Seq<char>) -> Seq<char> {
    let j = last_index_of(name, '.');
    if j >= 1 {
        name.take(j)
    } else {
        name
    }
}

/// The extension of a filename: everything after the last dot, empty when
/// the name has no dot past its first character.
pub open spec fn ext_of(name: Seq<char>) -> Seq<char> {
    let j = last_index_of(name, '.');
    if j >= 1 {
        name.subrange(j + 1, name.len() as int)
    } else {
        Seq::empty()
    }
}

/// The single decimal digit `d` as text.
pub open spec fn dec_digit(d: int) -> Seq<char> {
    if d == 0 {
        "0"@
    } else if d == 1 {
        "1"@
    } else if d == 2 {
        "2"@
    } else if d == 3 {
        "3"@
    } else if d == 4 {
        "4"@
    } else if d == 5 {
        "5"@
    } else if d == 6 {
        "6"@
    } else if d == 7 {
        "7"@
    } else if d == 8 {
        "8"@
    } else {
        "9"@
    }
}

/// `n` written in decimal, most significant digit first.
pub open spec fn dec_of(n: nat) -> Seq<char>
    decreases n,
{
    if n < 10 {
        dec_digit(n as int)
    } else {
        dec_of(n / 10) + dec_digit((n % 10) as int)
    }
}

/// The `k`-th numbered variant of a filename with the given stem and
/// extension; the extension part is omitted when the extension is empty.
pub open spec fn numbered_name(stem: Seq<char>, ext: Seq<char>, k: nat) -> Seq<char> {
    let base = stem + " ("@ + dec_of(k) + ")"@;
    if ext.len() == 0 {
        base
    } else {
        base + "."@ + ext
    }
}

/// The `k`-th candidate for an output name: the filename itself first,
/// then its numbered variants.
pub open spec fn candidate_of(filename: Seq<char>, k: nat) -> Seq<char> {
    if k == 0 {
        filename
    } else {
        numbered_name(stem_of(filename), ext_of(filename), k)
    }
}

/// Some name in `existing` reads exactly `name`.
pub open spec fn name_taken(existing: Seq<String>, name: Seq<char>) -> bool {
    exists|t: int| 0 <= t < existing.len() && (#[trigger] existing[t])@ == name
}

/// Candidate `k` is free while every earlier candidate collides.
pub open spec fn first_free_at(existing: Seq<String>, filename: Seq<char>, k: nat) -> bool {
    &&& !name_taken(existing, candidate_of(filename, k))
    &&& forall|j: nat| j < k ==> name_taken(existing, #[trigger] candidate_of(filename, j))
}

/// `dir` and `name` joined with a single path separator.
pub open spec fn joined_path(dir: Seq<char>, name: Seq<char>) -> Seq<char> {
    if dir.len() == 0 {
        name
    } else if dir.last() == '/' {
        dir + name
    } else {
        dir + "/"@ + name
    }
}

/// The filename a URL resolves to: the last segment of its parsed path,
/// or `unnamed` when the URL does not parse or the segment is empty.
pub open spec fn url_filename(url: Seq<char>) -> Seq<char> {
    match url_path_of(url) {
        Option::Some(p) => filename_of(p),
        Option::None => "unnamed"@,
    }
}

/// The path component of the string `url` read as an absolute URL, or
/// None when it is not one. Parsing is deterministic, so this is a
/// function of the string alone.
pub uninterp spec fn url_path_of(url: Seq<char>) -> Option<Seq<char>>;

/// Relies on url::Url::parse and url::Url::path: `parse` either rejects
/// the string or yields a URL whose `path` is a percent-encoded string,
/// both determined by the input string alone.
#[verifier::external_body]
fn url_path(url: &str) -> (r: Option<String>)
    ensures
        r is Some <==> url_path_of(url@) is Some,
        r is Some ==> r->Some_0@ == url_path_of(url@)->Some_0,
{
    match url::Url::parse(url) {
        Ok(u) => Some(u.path().to_string()),
        Err(_) => None,
    }
}

/// The index of the last occurrence of `c` in `s`, if any.
fn find_last(s: &str, c: char) -> (r: Option<usize>)
    ensures
        match r {
            Option::Some(j) => last_index_of(s@, c) == j as int,
            Option::None => last_index_of(s@, c) == -1,
        },
{
    let n = s.unicode_len();
    let mut j = n;
    while j > 0
        invariant
            j <= n,
            n == s@.len(),
            forall|t: int| j <= t < s@.len() ==> s@[t] != c,
        decreases j,
    {
        j = j - 1;
        if s.get_char(j) == c {
            proof {
                lemma_last_index_found(s@, c, j as int);
            }
            return Option::Some(j);
        }
    }
    proof {
        lemma_last_index_absent(s@, c);
    }
    Option::None
}

/// Extracts the candidate filename from a URL path: the part after the
/// last slash, or `unnamed` when that part is empty.
pub fn filename_from_path(path: &str) -> (r: String)
    ensures
        r@ == filename_of(path@),
{
    let n = path.unicode_len();
    match find_last(path, '/') {
        Option::Some(j) => {
            proof {
                lemma_last_index_bounds(path@, '/');
            }
            if j + 1 == n {
                String::from_str("unnamed")
            } else {
                path.substring_char(j + 1, n).to_owned()
            }
        },
        Option::None => {
            if n == 0 {
                String::from_str("unnamed")
            } else {
                assert(path@.subrange(0, n as int) =~= path@);
                path.to_owned()
            }
        },
    }
}

/// Splits a filename into stem and extension at its last dot; a name with
/// no dot past its first character keeps everything in the stem.
pub fn split_stem_ext(name: &str) -> (r: (String, String))
    ensures
        r.0@ == stem_of(name@),
        r.1@ == ext_of(name@),
{
    let n = name.unicode_len();
    match find_last(name, '.') {
        Option::Some(j) => {
            proof {
                lemma_last_index_bounds(name@, '.');
            }
            if j >= 1 {
                (name.substring_char(0, j).to_owned(), name.substring_char(j + 1, n).to_owned())
            } else {
                (name.to_owned(), String::new())
            }
        },
        Option::None => (name.to_owned(), String::new()),
    }
}

/// The single decimal digit `d` as text.
fn digit_str(d: u64) -> (r: &'static str)
    requires
        d < 10,
    ensures
        r@ == dec_digit(d as int),
{
    if d == 0 {
        "0"
    } else if d == 1 {
        "1"
    } else if d == 2 {
        "2"
    } else if d == 3 {
        "3"
    } else if d == 4 {
        "4"
    } else if d == 5 {
        "5"
    } else if d == 6 {
        "6"
    } else if d == 7 {
        "7"
    } else if d == 8 {
        "8"
    } else {
        "9"
    }
}

/// Writes `n` in decimal.
pub fn u64_to_dec(n: u64) -> (r: String)
    ensures
        r@ == dec_of(n as nat),
    decreases n,
{
    if n < 10 {
        String::from_str(digit_str(n))
    } else {
        let mut s = u64_to_dec(n / 10);
        s.append(digit_str(n % 10));
        s
    }
}

/// The `k`-th candidate name derived from `filename`: the name itself for
/// `k` 0, else `stem (k).ext` — without the dot and extension when the
/// extension is empty.
pub fn candidate_name(filename: &str, k: u64) -> (r: String)
    ensures
        r@ == candidate_of(filename@, k as nat),
{
    if k == 0 {
        filename.to_owned()
    } else {
        let parts = split_stem_ext(filename);
        let ext = parts.1;
        let mut out = parts.0;
        out.append(" (");
        let num = u64_to_dec(k);
        out.append(num.as_str());
        out.append(")");
        if ext.as_str().unicode_len() > 0 {
            out.append(".");
            out.append(ext.as_str());
        }
        assert(out@ =~= candidate_of(filename@, k as nat));
        out
    }
}

/// Whether `name` occurs in `existing`.
fn contains_name(existing: &Vec<String>, name: &String) -> (b: bool)
    ensures
        b == name_taken(existing@, name@),
{
    let mut t: usize = 0;
    while t < existing.len()
        invariant
            0 <= t <= existing@.len(),
            forall|u: int| 0 <= u < t ==> (#[trigger] existing@[u])@ != name@,
        decreases existing@.len() - t,
    {
        if existing[t].eq(name) {
            return true;
        }
        t = t + 1;
    }
    false
}

/// Resolves a collision-free output name against the names already
/// present: the first candidate — the filename itself, then `stem (1).ext`,
/// `stem (2).ext`, … — that is not taken. Trying one more candidate than
/// there are existing names is always enough unless every one of those
/// candidates is already present, which the None case states exactly.
pub fn resolve_name(existing: &Vec<String>, filename: &str) -> (r: Option<String>)
    ensures
        match r {
            Option::Some(name) => exists|k: nat|
                k <= existing@.len() && #[trigger] first_free_at(existing@, filename@, k)
                    && name@ == candidate_of(filename@, k),
            Option::None => forall|k: nat|
                k <= existing@.len() ==> name_taken(
                    existing@,
                    #[trigger] candidate_of(filename@, k),
                ),
        },
{
    let n = existing.len();
    let mut k: usize = 0;
    while k < n
        invariant
            n == existing@.len(),
            0 <= k <= n,
            forall|j: nat| j < k ==> name_taken(existing@, #[trigger] candidate_of(filename@, j)),
        decreases n - k,
    {
        let cand = candidate_name(filename, k as u64);
        if !contains_name(existing, &cand) {
            proof {
                assert(first_free_at(existing@, filename@, k as nat));
            }
            return Option::Some(cand);
        }
        k = k + 1;
    }
    let cand = candidate_name(filename, n as u64);
    if !contains_name(existing, &cand) {
        proof {
            assert(first_free_at(existing@, filename@, n as nat));
        }
        return Option::Some(cand);
    }
    Option::None
}

/// The candidate filename for a URL: the last segment of its parsed path,
/// or `unnamed` when the URL does not parse or the segment is empty.
pub fn filename_for_url(url: &str) -> (r: String)
    ensures
        r@ == url_filename(url@),
{
    match url_path(url) {
        Option::Some(p) => filename_from_path(p.as_str()),
        Option::None => String::from_str("unnamed"),
    }
}

/// Joins a directory and a filename with a single `/` separator.
pub fn join_path(dir: &str, name: &str) -> (r: String)
    ensures
        r@ == joined_path(dir@, name@),
{
    let n = dir.unicode_len();
    if n == 0 {
        name.to_owned()
    } else if dir.get_char(n - 1) == '/' {
        let mut out = dir.to_owned();
        out.append(name);
        out
    } else {
        let mut out = dir.to_owned();
        out.append("/");
        out.append(name);
        assert(out@ =~= joined_path(dir@, name@));
        out
    }
}

} // verus!
