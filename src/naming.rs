//! The file-name convention of installed extensions:
//! `<display name> - <version>.<extension>`.
use vstd::prelude::*;

verus! {

/// The characters that `char::is_whitespace` accepts (Unicode `White_Space`).
pub open spec fn is_white(c: char) -> bool {
    let u = c as u32;
    (9 <= u && u <= 13) || u == 32 || u == 0x85 || u == 0xA0 || u == 0x1680 || (0x2000 <= u
        && u <= 0x200A) || u == 0x2028 || u == 0x2029 || u == 0x202F || u == 0x205F || u == 0x3000
}

/// `s` without its leading whitespace.
pub open spec fn trim_start(s: Seq<char>) -> Seq<char>
    decreases s.len(),
{
    if s.len() > 0 && is_white(s[0]) {
        trim_start(s.drop_first())
    } else {
        s
    }
}

/// `s` without its trailing whitespace.
pub open spec fn trim_end(s: Seq<char>) -> Seq<char>
    decreases s.len(),
{
    if s.len() > 0 && is_white(s.last()) {
        trim_end(s.drop_last())
    } else {
        s
    }
}

/// `s` without whitespace at either end.
pub open spec fn trim(s: Seq<char>) -> Seq<char> {
    trim_end(trim_start(s))
}

/// The separator between a display name and its version.
pub open spec fn separator() -> Seq<char> {
    seq![' ', '-', ' ']
}

/// The separator starts at position `i` of `s`.
pub open spec fn sep_at(s: Seq<char>, i: int) -> bool {
    0 <= i && i + 3 <= s.len() && s[i] == ' ' && s[i + 1] == '-' && s[i + 2] == ' '
}

/// The greatest position below `n` at which the separator starts.
pub open spec fn last_sep_below(s: Seq<char>, n: int) -> Option<int>
    decreases n,
{
    if n <= 0 {
        None
    } else if sep_at(s, n - 1) {
        Some(n - 1)
    } else {
        last_sep_below(s, n - 1)
    }
}

/// The position of the last occurrence of the separator in `s`.
pub open spec fn last_sep(s: Seq<char>) -> Option<int> {
    last_sep_below(s, s.len() as int)
}

/// The greatest position below `n` that holds a dot.
pub open spec fn last_dot_below(s: Seq<char>, n: int) -> Option<int>
    decreases n,
{
    if n <= 0 {
        None
    } else if s[n - 1] == '.' {
        Some(n - 1)
    } else {
        last_dot_below(s, n - 1)
    }
}

/// The length of the stem of the file name `f`: everything before the last
/// dot, unless that dot leads the name. The names `""`, `"."` and `".."` name
/// no file and are their own stem.
pub open spec fn stem_len(f: Seq<char>) -> int {
    if f.len() == 0 || f =~= seq!['.'] || f =~= seq!['.', '.'] {
        f.len() as int
    } else {
        match last_dot_below(f, f.len() as int) {
            Some(i) => if i > 0 {
                i
            } else {
                f.len() as int
            },
            None => f.len() as int,
        }
    }
}

/// The file name `f` without its extension.
pub open spec fn stem(f: Seq<char>) -> Seq<char> {
    f.subrange(0, stem_len(f))
}

/// The display name encoded in the file name `f`.
pub open spec fn base_name_of(f: Seq<char>) -> Seq<char> {
    let st = stem(f);
    match last_sep(st) {
        Some(i) => trim(st.subrange(0, i)),
        None => trim(st),
    }
}

/// The version that stands for a file name without one.
pub open spec fn unknown_version() -> Seq<char> {
    seq!['u', 'n', 'k', 'n', 'o', 'w', 'n']
}

/// The version encoded in the file name `f`.
pub open spec fn version_of(f: Seq<char>) -> Seq<char> {
    let st = stem(f);
    match last_sep(st) {
        Some(i) => trim(st.subrange(i + 3, st.len() as int)),
        None => unknown_version(),
    }
}

/// What `last_sep_below` finds: the greatest separator position below `n`.
proof fn lemma_last_sep_below(s: Seq<char>, n: int)
    ensures
        match last_sep_below(s, n) {
            Some(i) => 0 <= i < n && sep_at(s, i) && forall|j: int|
                i < j < n ==> !#[trigger] sep_at(s, j),
            None => forall|j: int| 0 <= j < n ==> !#[trigger] sep_at(s, j),
        },
    decreases n,
{
    if n > 0 && !sep_at(s, n - 1) {
        lemma_last_sep_below(s, n - 1);
    }
}

/// A dot found below `n` stands below `n`.
proof fn lemma_last_dot_below(s: Seq<char>, n: int)
    ensures
        last_dot_below(s, n) matches Some(i) ==> 0 <= i < n,
    decreases n,
{
    if n > 0 && s[n - 1] != '.' {
        lemma_last_dot_below(s, n - 1);
    }
}

/// The stem of a file name is a prefix of it.
proof fn lemma_stem_len(f: Seq<char>)
    ensures
        0 <= stem_len(f) <= f.len(),
{
    lemma_last_dot_below(f, f.len() as int);
}

/// A file name whose stem holds the separator splits there into display name
/// and version: the stem is the part before its last separator, the separator,
/// and the part after it; the display name and the version are those two parts
/// trimmed. Where neither part has whitespace at its ends, display name,
/// separator and version joined give back the stem exactly. The result is the
/// position of that separator.
pub proof fn lemma_name_and_version_rebuild_stem(f: Seq<char>) -> (i: int)
    requires
        exists|j: int| sep_at(stem(f), j),
    ensures
        sep_at(stem(f), i),
        forall|j: int| i < j ==> !#[trigger] sep_at(stem(f), j),
        stem(f) =~= stem(f).subrange(0, i) + separator() + stem(f).subrange(
            i + 3,
            stem(f).len() as int,
        ),
        base_name_of(f) == trim(stem(f).subrange(0, i)),
        version_of(f) == trim(stem(f).subrange(i + 3, stem(f).len() as int)),
        trim(stem(f).subrange(0, i)) == stem(f).subrange(0, i) && trim(
            stem(f).subrange(i + 3, stem(f).len() as int),
        ) == stem(f).subrange(i + 3, stem(f).len() as int) ==> base_name_of(f) + separator()
            + version_of(f) =~= stem(f),
{
    let st = stem(f);
    lemma_last_sep_below(st, st.len() as int);
    last_sep(st)->0
}

/// A file name without the separator has the version `"unknown"`; where its
/// stem has no whitespace at its ends, its display name is that stem.
pub proof fn lemma_unversioned_name(f: Seq<char>)
    requires
        forall|j: int| !#[trigger] sep_at(f, j),
        trim(stem(f)) == stem(f),
    ensures
        version_of(f) == unknown_version(),
        base_name_of(f) == stem(f),
{
    let st = stem(f);
    lemma_stem_len(f);
    lemma_last_sep_below(st, st.len() as int);
    if last_sep(st) is Some {
        let i = last_sep(st)->0;
        assert(sep_at(f, i));
    }
}

fn is_whitespace(c: char) -> (r: bool)
    ensures
        r == is_white(c),
{
    let u = c as u32;
    (9 <= u && u <= 13) || u == 32 || u == 0x85 || u == 0xA0 || u == 0x1680 || (0x2000 <= u
        && u <= 0x200A) || u == 0x2028 || u == 0x2029 || u == 0x202F || u == 0x205F || u == 0x3000
}

/// The characters of `s`, one by one.
pub(crate) fn chars_of(s: &str) -> (r: Vec<char>)
    ensures
        r@ == s@,
{
    let n = s.unicode_len();
    let mut v: Vec<char> = Vec::new();
    let mut i: usize = 0;
    while i < n
        invariant
            n == s@.len(),
            i <= n,
            v@ == s@.subrange(0, i as int),
        decreases n - i,
    {
        v.push(s.get_char(i));
        i = i + 1;
        assert(v@ =~= s@.subrange(0, i as int));
    }
    assert(v@ =~= s@);
    v
}

fn stem_end(f: &Vec<char>) -> (r: usize)
    ensures
        r as int == stem_len(f@),
        r <= f@.len(),
{
    let n = f.len();
    if n == 0 || (n == 1 && f[0] == '.') || (n == 2 && f[0] == '.' && f[1] == '.') {
        assert(n == 1 ==> f@ =~= seq!['.'] || f@[0] != '.');
        return n;
    }
    assert(!(f@ =~= seq!['.']) && !(f@ =~= seq!['.', '.'])) by {
        if f@ =~= seq!['.'] {
            assert(f@[0] == '.');
        }
        if f@ =~= seq!['.', '.'] {
            assert(f@[0] == '.' && f@[1] == '.');
        }
    }
    let mut k: usize = n;
    while k > 0 && f[k - 1] != '.'
        invariant
            n == f@.len(),
            k <= n,
            last_dot_below(f@, n as int) == last_dot_below(f@, k as int),
        decreases k,
    {
        k = k - 1;
    }
    if k > 1 {
        k - 1
    } else {
        n
    }
}

/// The position below `n` of the last separator in `v`.
fn find_last_sep(v: &Vec<char>, n: usize) -> (r: Option<usize>)
    requires
        n <= v@.len(),
    ensures
        last_sep_below(v@.subrange(0, n as int), n as int) == (match r {
            Some(i) => Some(i as int),
            None => None::<int>,
        }),
        r matches Some(i) ==> i + 3 <= n,
{
    let ghost s = v@.subrange(0, n as int);
    let mut k: usize = n;
    while k > 0
        invariant
            k <= n <= v@.len(),
            s == v@.subrange(0, n as int),
            last_sep_below(s, n as int) == last_sep_below(s, k as int),
        decreases k,
    {
        let i = k - 1;
        if n - i >= 3 && v[i] == ' ' && v[i + 1] == '-' && v[i + 2] == ' ' {
            assert(sep_at(s, i as int));
            return Some(i);
        }
        assert(!sep_at(s, i as int));
        k = i;
    }
    None
}

/// The bounds of `v[lo..hi]` once whitespace is cut from both ends.
fn trim_bounds(v: &Vec<char>, lo: usize, hi: usize) -> (r: (usize, usize))
    requires
        lo <= hi <= v@.len(),
    ensures
        lo <= r.0 <= r.1 <= hi,
        v@.subrange(r.0 as int, r.1 as int) == trim(v@.subrange(lo as int, hi as int)),
{
    let ghost whole = v@.subrange(lo as int, hi as int);
    let mut a: usize = lo;
    while a < hi && is_whitespace(v[a])
        invariant
            lo <= a <= hi <= v@.len(),
            whole == v@.subrange(lo as int, hi as int),
            trim_start(whole) == trim_start(v@.subrange(a as int, hi as int)),
        decreases hi - a,
    {
        assert(v@.subrange(a as int, hi as int).drop_first() =~= v@.subrange(
            a + 1,
            hi as int,
        ));
        a = a + 1;
    }
    assert(trim_start(v@.subrange(a as int, hi as int)) == v@.subrange(a as int, hi as int));
    let ghost front = v@.subrange(a as int, hi as int);
    let mut b: usize = hi;
    while b > a && is_whitespace(v[b - 1])
        invariant
            lo <= a <= b <= hi <= v@.len(),
            front == v@.subrange(a as int, hi as int),
            trim_end(front) == trim_end(v@.subrange(a as int, b as int)),
        decreases b - a,
    {
        assert(v@.subrange(a as int, b as int).drop_last() =~= v@.subrange(
            a as int,
            b - 1,
        ));
        b = b - 1;
    }
    (a, b)
}

/// The display name of the extension stored under `full_file_name`: the stem
/// up to the last `" - "`, or the whole stem where there is none, trimmed.
pub fn get_base_name(full_file_name: &str) -> (r: String)
    ensures
        r@ == base_name_of(full_file_name@),
{
    let f = chars_of(full_file_name);
    let n = stem_end(&f);
    let ghost st = stem(f@);
    assert(f@.subrange(0, n as int) =~= st);
    match find_last_sep(&f, n) {
        Some(i) => {
            assert(last_sep(st) == Some(i as int));
            let (a, b) = trim_bounds(&f, 0, i);
            assert(f@.subrange(0, i as int) =~= st.subrange(0, i as int));
            String::from_str(full_file_name.substring_char(a, b))
        },
        None => {
            assert(last_sep(st) is None);
            let (a, b) = trim_bounds(&f, 0, n);
            String::from_str(full_file_name.substring_char(a, b))
        },
    }
}

/// The version of the extension stored under `full_file_name`: the stem after
/// the last `" - "`, trimmed, or `"unknown"` where there is none.
pub fn get_version(full_file_name: &str) -> (r: String)
    ensures
        r@ == version_of(full_file_name@),
{
    let f = chars_of(full_file_name);
    let n = stem_end(&f);
    let ghost st = stem(f@);
    assert(f@.subrange(0, n as int) =~= st);
    match find_last_sep(&f, n) {
        Some(i) => {
            assert(last_sep(st) == Some(i as int));
            assert(f@.subrange(i + 3, n as int) =~= st.subrange(i + 3, st.len() as int));
            let (a, b) = trim_bounds(&f, i + 3, n);
            String::from_str(full_file_name.substring_char(a, b))
        },
        None => {
            proof {
                reveal_strlit("unknown");
            }
            let r = String::from_str("unknown");
            assert(last_sep(st) is None);
            assert(r@ =~= unknown_version());
            r
        },
    }
}

} // verus!
