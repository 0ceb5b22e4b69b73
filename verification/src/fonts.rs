//! What the font lookup decides once the host has read a directory or a
//! file: which file names belong to a font family, and the data URL in
//! which a font file is handed over.

use vstd::prelude::*;
use vstd::string::StringExecFns;
use crate::transport::{base64_encode, encoding};

verus! {

broadcast use vstd::string::group_string_axioms;

/// Whether a file name ends in `.otf`, `.ttf` or `.ttc`.
pub open spec fn has_font_extension(name: Seq<char>) -> bool {
    let n = name.len() as int;
    &&& n >= 4
    &&& name[n - 4] == '.'
    &&& {
        ||| name[n - 3] == 'o' && name[n - 2] == 't' && name[n - 1] == 'f'
        ||| name[n - 3] == 't' && name[n - 2] == 't' && name[n - 1] == 'f'
        ||| name[n - 3] == 't' && name[n - 2] == 't' && name[n - 1] == 'c'
    }
}

/// A name without its hyphens and underscores.
pub open spec fn without_separators(name: Seq<char>) -> Seq<char>
    decreases name.len(),
{
    if name.len() == 0 {
        Seq::empty()
    } else {
        let front = without_separators(name.drop_last());
        if name.last() == '-' || name.last() == '_' {
            front
        } else {
            front.push(name.last())
        }
    }
}

/// Whether `part` stands in `text` from position `at` on.
pub open spec fn occurs_at(text: Seq<char>, part: Seq<char>, at: int) -> bool {
    &&& 0 <= at
    &&& at + part.len() <= text.len()
    &&& text.subrange(at, at + part.len()) == part
}

/// Whether `part` stands somewhere in `text`.
pub open spec fn occurs_in(text: Seq<char>, part: Seq<char>) -> bool {
    exists|at: int| occurs_at(text, part, at)
}

/// Whether the file `name` holds a font of the family `needle`: the name
/// ends in `.otf`, `.ttf` or `.ttc`, and what stands in front of that
/// extension holds the family, hyphens and underscores left aside. Both are
/// taken as they are: the host hands them over in lower case, the family
/// without its spaces.
pub open spec fn font_name_matches(name: Seq<char>, needle: Seq<char>) -> bool {
    &&& has_font_extension(name)
    &&& occurs_in(without_separators(name.take(name.len() - 4)), needle)
}

/// The characters of a text.
fn chars_of(text: &str) -> (chars: Vec<char>)
    ensures
        chars@ == text@,
{
    let mut chars: Vec<char> = Vec::new();
    for c in it: text.chars()
        invariant
            it.seq() == text@,
            chars@ == text@.take(it.index()),
    {
        chars.push(c);
        assert(text@.take(it.index() + 1) =~= text@.take(it.index()).push(c));
    }
    assert(text@.take(text@.len() as int) =~= text@);
    chars
}

/// Whether `part` stands somewhere in `text`.
fn occurs(text: &Vec<char>, part: &Vec<char>) -> (found: bool)
    ensures
        found == occurs_in(text@, part@),
{
    let n: usize = text.len();
    let m: usize = part.len();
    if m > n {
        return false;
    }
    let last: usize = n - m;
    let mut at: usize = 0;
    while at <= last
        invariant
            n == text@.len(),
            m == part@.len(),
            last == n - m,
            forall|k: int| 0 <= k < at ==> !occurs_at(text@, part@, k),
        decreases last + 1 - at,
    {
        let mut same: usize = 0;
        let mut equal = true;
        while equal && same < m
            invariant
                n == text@.len(),
                m == part@.len(),
                last == n - m,
                at <= last,
                same <= m,
                forall|i: int| 0 <= i < same ==> text@[at + i] == part@[i],
                !equal ==> same < m && text@[at + same] != part@[same as int],
            decreases m - same + if equal { 1nat } else { 0nat },
        {
            if text[at + same] == part[same] {
                same = same + 1;
            } else {
                equal = false;
            }
        }
        if equal {
            assert(text@.subrange(at as int, at + m) =~= part@);
            assert(occurs_at(text@, part@, at as int));
            return true;
        }
        assert(text@.subrange(at as int, at + m)[same as int] != part@[same as int]);
        at = at + 1;
    }
    false
}

/// Whether the file `name` holds a font of the family `needle`.
pub fn font_file_matches(name: &str, needle: &str) -> (matches: bool)
    ensures
        matches == font_name_matches(name@, needle@),
{
    let name = chars_of(name);
    let needle = chars_of(needle);
    let n: usize = name.len();
    if n < 4 || name[n - 4] != '.' {
        return false;
    }
    let otf = name[n - 3] == 'o' && name[n - 2] == 't' && name[n - 1] == 'f';
    let ttf = name[n - 3] == 't' && name[n - 2] == 't' && name[n - 1] == 'f';
    let ttc = name[n - 3] == 't' && name[n - 2] == 't' && name[n - 1] == 'c';
    if !(otf || ttf || ttc) {
        return false;
    }
    let ghost stem = name@.take(n - 4);
    let mut clean: Vec<char> = Vec::new();
    let mut i: usize = 0;
    while i < n - 4
        invariant
            n == name@.len(),
            n >= 4,
            i <= n - 4,
            stem == name@.take(n - 4),
            clean@ == without_separators(stem.take(i as int)),
        decreases n - 4 - i,
    {
        let c = name[i];
        assert(stem.take(i + 1).drop_last() =~= stem.take(i as int));
        if !(c == '-' || c == '_') {
            clean.push(c);
        }
        i = i + 1;
    }
    assert(stem.take(i as int) =~= stem);
    occurs(&clean, &needle)
}

/// The data URL of a font file with the bytes `data`: of the OpenType
/// format if `opentype` says so, else of the TrueType format, with the
/// bytes as base64.
pub fn font_data_url(opentype: bool, data: &[u8]) -> (url: String)
    ensures
        url@ == "data:font/"@ + (if opentype {
            "opentype"@
        } else {
            "truetype"@
        }) + ";base64,"@ + encoding(data@),
{
    let mut url = "data:font/".to_owned();
    if opentype {
        url.append("opentype");
    } else {
        url.append("truetype");
    }
    url.append(";base64,");
    let text = base64_encode(data);
    url.append(text.as_str());
    url
}

} // verus!
