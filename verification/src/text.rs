//! Character-level helpers shared by the path and input handling:
//! Unicode whitespace trimming and splitting at the last separator.
use vstd::prelude::*;

verus! {

/// The characters with the Unicode `White_Space` property, which is what
/// `char::is_whitespace` tests for.
pub open spec fn is_whitespace(c: char) -> bool {
    ||| ('\u{9}' <= c && c <= '\u{d}')
    ||| c == ' '
    ||| c == '\u{85}'
    ||| c == '\u{a0}'
    ||| c == '\u{1680}'
    ||| ('\u{2000}' <= c && c <= '\u{200a}')
    ||| c == '\u{2028}'
    ||| c == '\u{2029}'
    ||| c == '\u{202f}'
    ||| c == '\u{205f}'
    ||| c == '\u{3000}'
}

/// `s` with its leading whitespace removed.
pub open spec fn trim_start(s: Seq<char>) -> Seq<char>
    decreases s.len(),
{
    if s.len() > 0 && is_whitespace(s[0]) {
        trim_start(s.drop_first())
    } else {
        s
    }
}

/// `s` with its trailing whitespace removed.
pub open spec fn trim_end(s: Seq<char>) -> Seq<char>
    decreases s.len(),
{
    if s.len() > 0 && is_whitespace(s.last()) {
        trim_end(s.drop_last())
    } else {
        s
    }
}

/// `s` with leading and trailing whitespace removed (what `str::trim` returns).
pub open spec fn trim(s: Seq<char>) -> Seq<char> {
    trim_end(trim_start(s))
}

/// Index just past the last `sep` in `s[0..j]`, or 0 when that prefix holds none:
/// the start of the segment that ends at `j`.
pub open spec fn seg_start(s: Seq<char>, j: int, sep: char) -> int
    decreases j,
{
    if j <= 0 {
        0
    } else if s[j - 1] == sep {
        j
    } else {
        seg_start(s, j - 1, sep)
    }
}

/// The part of `s` after its last `sep`, or all of `s` when it holds no `sep`:
/// the last piece that splitting `s` at `sep` yields.
pub open spec fn after_last(s: Seq<char>, sep: char) -> Seq<char> {
    s.subrange(seg_start(s, s.len() as int, sep), s.len() as int)
}

pub proof fn lemma_seg_start_bounds(s: Seq<char>, j: int, sep: char)
    requires
        0 <= j <= s.len(),
    ensures
        0 <= seg_start(s, j, sep) <= j,
        forall|k: int| seg_start(s, j, sep) <= k < j ==> s[k] != sep,
        seg_start(s, j, sep) > 0 ==> s[seg_start(s, j, sep) - 1] == sep,
    decreases j,
{
    if j > 0 && s[j - 1] != sep {
        lemma_seg_start_bounds(s, j - 1, sep);
    }
}

/// `seg_start` is determined by the separator-free stretch that ends at `j`.
pub proof fn lemma_seg_start_unique(s: Seq<char>, j: int, i: int, sep: char)
    requires
        0 <= i <= j <= s.len(),
        forall|k: int| i <= k < j ==> s[k] != sep,
        i == 0 || s[i - 1] == sep,
    ensures
        seg_start(s, j, sep) == i,
    decreases j,
{
    if j > i {
        lemma_seg_start_unique(s, j - 1, i, sep);
    }
}

proof fn lemma_trim_start_skip(s: Seq<char>, a: int)
    requires
        0 <= a <= s.len(),
        forall|k: int| 0 <= k < a ==> is_whitespace(s[k]),
    ensures
        trim_start(s) == trim_start(s.subrange(a, s.len() as int)),
    decreases a,
{
    if a > 0 {
        let t = s.drop_first();
        assert forall|k: int| 0 <= k < a - 1 implies is_whitespace(t[k]) by {
            assert(t[k] == s[k + 1]);
        }
        lemma_trim_start_skip(t, a - 1);
        assert(t.subrange(a - 1, t.len() as int) =~= s.subrange(a, s.len() as int));
    } else {
        assert(s.subrange(0, s.len() as int) =~= s);
    }
}

proof fn lemma_trim_end_skip(s: Seq<char>, b: int)
    requires
        0 <= b <= s.len(),
        forall|k: int| b <= k < s.len() ==> is_whitespace(s[k]),
    ensures
        trim_end(s) == trim_end(s.subrange(0, b)),
    decreases s.len() - b,
{
    if b < s.len() {
        let t = s.drop_last();
        assert forall|k: int| b <= k < t.len() implies is_whitespace(t[k]) by {
            assert(t[k] == s[k]);
        }
        lemma_trim_end_skip(t, b);
        assert(t.subrange(0, b) =~= s.subrange(0, b));
    } else {
        assert(s.subrange(0, b) =~= s);
    }
}

/// Whether `c` is whitespace, as `char::is_whitespace` decides it.
pub fn is_whitespace_char(c: char) -> (res: bool)
    ensures
        res == is_whitespace(c),
{
    ('\u{9}' <= c && c <= '\u{d}') || c == ' ' || c == '\u{85}' || c == '\u{a0}' || c
        == '\u{1680}' || ('\u{2000}' <= c && c <= '\u{200a}') || c == '\u{2028}' || c
        == '\u{2029}' || c == '\u{202f}' || c == '\u{205f}' || c == '\u{3000}'
}

/// `s` with leading and trailing whitespace removed.
pub fn trim_whitespace(s: &str) -> (res: String)
    ensures
        res@ == trim(s@),
{
    let n = s.unicode_len();
    let mut a: usize = 0;
    while a < n && is_whitespace_char(s.get_char(a))
        invariant
            n == s@.len(),
            a <= n,
            forall|k: int| 0 <= k < a ==> is_whitespace(s@[k]),
        decreases n - a,
    {
        a = a + 1;
    }
    let mut b: usize = n;
    while b > a && is_whitespace_char(s.get_char(b - 1))
        invariant
            n == s@.len(),
            a <= b <= n,
            forall|k: int| b <= k < n ==> is_whitespace(s@[k]),
        decreases b - a,
    {
        b = b - 1;
    }
    proof {
        let rest = s@.subrange(a as int, n as int);
        lemma_trim_start_skip(s@, a as int);
        if a < n {
            assert(!is_whitespace(rest[0]));
        } else {
            assert(rest.len() == 0);
        }
        assert(trim_start(s@) == rest);
        assert forall|k: int| b - a <= k < rest.len() implies is_whitespace(rest[k]) by {
            assert(rest[k] == s@[a + k]);
        }
        lemma_trim_end_skip(rest, b - a);
        let kept = rest.subrange(0, b - a);
        if b > a {
            assert(kept.last() == s@[b - 1]);
        }
        assert(kept =~= s@.subrange(a as int, b as int));
    }
    String::from_str(s.substring_char(a, b))
}

/// The part of `s` after its last `sep`, or all of `s` when it holds none.
pub fn split_last(s: &str, sep: char) -> (res: String)
    ensures
        res@ == after_last(s@, sep),
        !res@.contains(sep),
        res@.len() == s@.len() || s@[s@.len() - res@.len() - 1] == sep,
        res@ =~= s@.subrange(s@.len() - res@.len(), s@.len() as int),
{
    let n = s.unicode_len();
    let mut j: usize = n;
    while j > 0 && s.get_char(j - 1) != sep
        invariant
            n == s@.len(),
            j <= n,
            forall|k: int| j <= k < n ==> s@[k] != sep,
        decreases j,
    {
        j = j - 1;
    }
    proof {
        lemma_seg_start_unique(s@, n as int, j as int, sep);
        let r = s@.subrange(j as int, n as int);
        assert forall|k: int| 0 <= k < r.len() implies r[k] != sep by {
            assert(r[k] == s@[j + k]);
        }
    }
    String::from_str(s.substring_char(j, n))
}


/// The file name of the `/`-separated path `p[0..j]`: its last component that
/// is neither empty nor `.`, unless that component is `..` (then there is none).
/// This is what `Path::file_name` yields on Unix.
pub open spec fn file_name_in(p: Seq<char>, j: int) -> Option<Seq<char>>
    decreases j,
{
    if j <= 0 || j > p.len() {
        None
    } else {
        let i = seg_start(p, j, '/');
        let seg = p.subrange(i, j);
        if seg.len() > 0 && seg != seq!['.'] {
            if seg == seq!['.', '.'] {
                None
            } else {
                Some(seg)
            }
        } else if i <= 0 {
            None
        } else {
            proof {
                lemma_seg_start_bounds(p, j, '/');
            }
            file_name_in(p, i - 1)
        }
    }
}

/// The file name of the path `p`.
pub open spec fn file_name(p: Seq<char>) -> Option<Seq<char>> {
    file_name_in(p, p.len() as int)
}

/// The extension of a file name: the part after its last `.`, provided some
/// character comes before that `.` (so `.bashrc` and `makefile` have none).
pub open spec fn name_extension(name: Seq<char>) -> Option<Seq<char>> {
    let k = seg_start(name, name.len() as int, '.');
    if k <= 1 {
        None
    } else {
        Some(name.subrange(k, name.len() as int))
    }
}

/// The extension of the path `p`, as `Path::extension` yields it on Unix.
pub open spec fn path_extension_spec(p: Seq<char>) -> Option<Seq<char>> {
    match file_name(p) {
        Some(name) => name_extension(name),
        None => None,
    }
}

/// Start of the `/`-separated segment of `s` that ends at `j`.
fn segment_start(s: &str, j: usize) -> (i: usize)
    requires
        j <= s@.len(),
    ensures
        i == seg_start(s@, j as int, '/'),
        i <= j,
{
    let mut i = j;
    while i > 0 && s.get_char(i - 1) != '/'
        invariant
            i <= j <= s@.len(),
            forall|k: int| i <= k < j ==> s@[k] != '/',
        decreases i,
    {
        i = i - 1;
    }
    proof {
        lemma_seg_start_unique(s@, j as int, i as int, '/');
    }
    i
}

/// The extension of the path `path`: the part of its file name after the last
/// `.`, if the file name has a `.` that is not its first character.
pub fn path_extension(path: &str) -> (res: Option<String>)
    ensures
        match res {
            Some(e) => path_extension_spec(path@) == Some(e@),
            None => path_extension_spec(path@) is None,
        },
{
    let n = path.unicode_len();
    let mut j = n;
    // walk back over trailing empty and `.` components
    loop
        invariant
            j <= n == path@.len(),
            file_name(path@) == file_name_in(path@, j as int),
        decreases j,
    {
        if j == 0 {
            return None;
        }
        let i = segment_start(path, j);
        let len = j - i;
        let is_dot = len == 1 && path.get_char(i) == '.';
        if len > 0 && !is_dot {
            let is_dotdot = len == 2 && path.get_char(i) == '.' && path.get_char(i + 1) == '.';
            proof {
                let seg = path@.subrange(i as int, j as int);
                if len == 1 {
                    assert(seg != seq!['.']) by {
                        assert(seg[0] == path@[i as int]);
                    }
                }
                if is_dotdot {
                    assert(seg =~= seq!['.', '.']);
                } else if len == 2 {
                    assert(seg != seq!['.', '.']) by {
                        assert(seg[0] == path@[i as int]);
                        assert(seg[1] == path@[i + 1]);
                    }
                }
            }
            if is_dotdot {
                return None;
            }
            let name = path.substring_char(i, j);
            // the last `.` of the file name
            let m = name.unicode_len();
            let mut k = m;
            while k > 0 && name.get_char(k - 1) != '.'
                invariant
                    k <= m == name@.len(),
                    forall|t: int| k <= t < m ==> name@[t] != '.',
                decreases k,
            {
                k = k - 1;
            }
            proof {
                lemma_seg_start_unique(name@, m as int, k as int, '.');
            }
            if k <= 1 {
                return None;
            }
            return Some(String::from_str(name.substring_char(k, m)));
        }
        proof {
            let seg = path@.subrange(i as int, j as int);
            if len == 1 {
                assert(seg =~= seq!['.']);
            }
        }
        if i == 0 {
            return None;
        }
        j = i - 1;
    }
}


/// The lowercase form of `s` that `str::to_lowercase` returns (Unicode
/// `Lowercase` mapping); a function of `s` alone.
pub uninterp spec fn lowercase(s: Seq<char>) -> Seq<char>;

/// `str::to_lowercase`. Its result is named, not stated: the Unicode case
/// mapping takes tables to write down.
#[verifier::external_body]
pub fn to_lowercase(s: &str) -> (res: String)
    ensures
        res@ == lowercase(s@),
{
    s.to_lowercase()
}

/// Whether `a` and `b` hold the same characters.
pub fn chars_equal(a: &str, b: &str) -> (res: bool)
    ensures
        res == (a@ == b@),
{
    let n = a.unicode_len();
    let m = b.unicode_len();
    if n != m {
        return false;
    }
    let mut i: usize = 0;
    while i < n
        invariant
            n == a@.len() == b@.len(),
            i <= n,
            forall|k: int| 0 <= k < i ==> a@[k] == b@[k],
        decreases n - i,
    {
        if a.get_char(i) != b.get_char(i) {
            return false;
        }
        i = i + 1;
    }
    assert(a@ =~= b@);
    true
}


/// Trimming removes all leading and trailing whitespace: what remains is
/// empty or starts and ends with a non-whitespace character, so trimming
/// again changes nothing.
pub proof fn lemma_trim_idempotent(s: Seq<char>)
    ensures
        trim(s).len() > 0 ==> !is_whitespace(trim(s)[0]) && !is_whitespace(trim(s).last()),
        trim(trim(s)) == trim(s),
    decreases s.len(),
{
    lemma_trim_start_shape(s);
    lemma_trim_end_shape(trim_start(s));
    let t = trim(s);
    if t.len() > 0 {
        // `t` starts where `trim_start(s)` starts, and that is not whitespace
        assert(t[0] == trim_start(s)[0]);
        assert(trim_start(t) == t);
        assert(trim_end(t) == t);
    } else {
        assert(trim_start(t) == t);
        assert(trim_end(t) == t);
    }
}

/// `trim_start(s)` is a suffix of `s` that is empty or starts with a
/// non-whitespace character.
proof fn lemma_trim_start_shape(s: Seq<char>)
    ensures
        trim_start(s).len() <= s.len(),
        trim_start(s) =~= s.subrange(s.len() - trim_start(s).len(), s.len() as int),
        trim_start(s).len() > 0 ==> !is_whitespace(trim_start(s)[0]),
    decreases s.len(),
{
    if s.len() > 0 && is_whitespace(s[0]) {
        lemma_trim_start_shape(s.drop_first());
    }
}

/// `trim_end(s)` is a prefix of `s` that is empty or ends with a
/// non-whitespace character.
proof fn lemma_trim_end_shape(s: Seq<char>)
    ensures
        trim_end(s).len() <= s.len(),
        trim_end(s) =~= s.subrange(0, trim_end(s).len() as int),
        trim_end(s).len() > 0 ==> !is_whitespace(trim_end(s).last()),
    decreases s.len(),
{
    if s.len() > 0 && is_whitespace(s.last()) {
        lemma_trim_end_shape(s.drop_last());
    }
}

/// Splitting at the last separator: when `s` holds `sep`, it is the part
/// before its last `sep`, that `sep`, and `after_last(s, sep)`, which holds
/// no `sep`; otherwise `after_last(s, sep)` is all of `s`.
pub proof fn lemma_after_last_split(s: Seq<char>, sep: char)
    ensures
        !after_last(s, sep).contains(sep),
        s.contains(sep) ==> s =~= s.subrange(0, s.len() - after_last(s, sep).len() - 1) + seq![sep]
            + after_last(s, sep),
        !s.contains(sep) ==> after_last(s, sep) == s,
{
    let j = seg_start(s, s.len() as int, sep);
    lemma_seg_start_bounds(s, s.len() as int, sep);
    let r = after_last(s, sep);
    assert forall|k: int| 0 <= k < r.len() implies r[k] != sep by {
        assert(r[k] == s[j + k]);
    }
    if s.contains(sep) {
        let w = choose|w: int| 0 <= w < s.len() && s[w] == sep;
        assert(j > 0);
    } else {
        if j > 0 {
            assert(s[j - 1] == sep);
        }
        assert(r =~= s);
    }
}

} // verus!
