//! Text validation shared by the kernel and the record store.

use vstd::prelude::*;
use vstd::std_specs::iter::IteratorSpec;
use vstd::string::StrSliceExecFns;

verus! {

broadcast use vstd::string::group_string_axioms;

/// Unicode `White_Space`, the set that `char::is_whitespace` tests.
pub open spec fn is_space(c: char) -> bool {
    let u = c as u32;
    ||| 0x09 <= u <= 0x0d
    ||| u == 0x20
    ||| u == 0x85
    ||| u == 0xa0
    ||| u == 0x1680
    ||| 0x2000 <= u <= 0x200a
    ||| u == 0x2028
    ||| u == 0x2029
    ||| u == 0x202f
    ||| u == 0x205f
    ||| u == 0x3000
}

/// A text is blank when trimming it leaves nothing.
pub open spec fn is_blank(s: Seq<char>) -> bool {
    forall|i: int| 0 <= i < s.len() ==> #[trigger] is_space(s[i])
}

/// `a` is where the text starts once its leading white space is skipped.
pub open spec fn is_trim_start(s: Seq<char>, a: int) -> bool {
    &&& 0 <= a <= s.len()
    &&& forall|i: int| 0 <= i < a ==> #[trigger] is_space(s[i])
    &&& a < s.len() ==> !is_space(s[a])
}

/// `b` is where the text ends once its trailing white space is dropped.
pub open spec fn is_trim_end(s: Seq<char>, b: int) -> bool {
    &&& 0 <= b <= s.len()
    &&& forall|i: int| b <= i < s.len() ==> #[trigger] is_space(s[i])
    &&& b > 0 ==> !is_space(s[b - 1])
}

/// The text with leading and trailing white space removed (`str::trim`).
pub open spec fn trim(s: Seq<char>) -> Seq<char> {
    let a = choose|a: int| is_trim_start(s, a);
    let b = choose|b: int| is_trim_end(s, b);
    if a < b {
        s.subrange(a, b)
    } else {
        Seq::empty()
    }
}

proof fn lemma_trim_bounds_unique(s: Seq<char>, a: int, b: int)
    requires
        is_trim_start(s, a),
        is_trim_end(s, b),
    ensures
        (choose|x: int| is_trim_start(s, x)) == a,
        (choose|x: int| is_trim_end(s, x)) == b,
        trim(s) == (if a < b { s.subrange(a, b) } else { Seq::<char>::empty() }),
        is_blank(s) <==> trim(s).len() == 0,
{
    let a2 = choose|x: int| is_trim_start(s, x);
    let b2 = choose|x: int| is_trim_end(s, x);
    if a2 < a {
        assert(is_space(s[a2]));
    }
    if a < a2 {
        assert(is_space(s[a]));
    }
    if b2 < b {
        assert(is_space(s[b - 1]));
    }
    if b < b2 {
        assert(is_space(s[b2 - 1]));
    }
    if !is_blank(s) {
        let k = choose|k: int| 0 <= k < s.len() && !is_space(s[k]);
        assert(a <= k);
        assert(k < b);
    } else {
        if a < s.len() {
            assert(is_space(s[a]));
        }
    }
}

pub fn is_space_char(c: char) -> (r: bool)
    ensures
        r == is_space(c),
{
    let u = c as u32;
    (0x09 <= u && u <= 0x0d) || u == 0x20 || u == 0x85 || u == 0xa0 || u == 0x1680 || (0x2000
        <= u && u <= 0x200a) || u == 0x2028 || u == 0x2029 || u == 0x202f || u == 0x205f || u
        == 0x3000
}

/// The characters of `value`, in order.
pub fn chars_of(value: &str) -> (r: Vec<char>)
    ensures
        r@ == value@,
{
    let total = value.unicode_len();
    let mut out: Vec<char> = Vec::new();
    for c in it: value.chars()
        invariant
            it.seq() == value@,
            out.len() == it.index(),
            total == value@.len(),
            out@ == value@.subrange(0, it.index() as int),
    {
        out.push(c);
    }
    assert(out@ == value@.subrange(0, value@.len() as int));
    out
}

/// Counts the characters of `value` and tells whether it is blank.
pub fn measure_text(value: &str) -> (r: (usize, bool))
    ensures
        r.0 == value@.len(),
        r.1 == is_blank(value@),
{
    let total = value.unicode_len();
    let mut count: usize = 0;
    let mut blank = true;
    for c in it: value.chars()
        invariant
            it.seq() == value@,
            count == it.index(),
            total == value@.len(),
            blank == (forall|i: int| 0 <= i < count ==> #[trigger] is_space(value@[i])),
    {
        if !is_space_char(c) {
            blank = false;
        }
        count = count + 1;
    }
    (count, blank)
}

/// `str::trim`: the text without leading and trailing white space.
pub fn trim_text(value: &str) -> (r: String)
    ensures
        r@ == trim(value@),
        r@.len() == 0 <==> is_blank(value@),
{
    let chars = chars_of(value);
    let n = chars.len();
    let mut a: usize = 0;
    while a < n && is_space_char(chars[a])
        invariant
            chars@ == value@,
            n == chars.len(),
            a <= n,
            forall|i: int| 0 <= i < a ==> #[trigger] is_space(value@[i]),
        decreases n - a,
    {
        a = a + 1;
    }
    let mut b: usize = n;
    while b > 0 && is_space_char(chars[b - 1])
        invariant
            chars@ == value@,
            n == chars.len(),
            b <= n,
            forall|i: int| b <= i < n ==> #[trigger] is_space(value@[i]),
        decreases b,
    {
        b = b - 1;
    }
    proof {
        lemma_trim_bounds_unique(value@, a as int, b as int);
    }
    if a < b {
        value.substring_char(a, b).to_owned()
    } else {
        String::new()
    }
}

} // verus!

verus! {

/// A character that may appear in a portable logical path.
pub open spec fn is_portable_char(c: char) -> bool {
    let u = c as u32;
    &&& u >= 0x20
    &&& !(0x7f <= u <= 0x9f)
    &&& c != '\\'
    &&& c != ':'
}

/// Position `i` begins a `/`-separated segment.
pub open spec fn begins_segment(s: Seq<char>, i: int) -> bool {
    i == 0 || s[i - 1] == '/'
}

/// Position `j` ends a `/`-separated segment.
pub open spec fn ends_segment(s: Seq<char>, j: int) -> bool {
    j == s.len() || s[j] == '/'
}

/// A relative, portable path: printable characters without `\` or `:`, no empty segment
/// (so no leading, trailing or doubled `/`), and no `.` or `..` segment.
pub open spec fn is_portable_path(s: Seq<char>) -> bool {
    &&& s.len() > 0
    &&& forall|i: int| 0 <= i < s.len() ==> #[trigger] is_portable_char(s[i])
    &&& forall|i: int|
        0 <= i <= s.len() && #[trigger] begins_segment(s, i) ==> !ends_segment(s, i)
    &&& forall|i: int|
        0 <= i < s.len() && #[trigger] begins_segment(s, i) && s[i] == '.' ==> {
            &&& !ends_segment(s, i + 1)
            &&& !(s[i + 1] == '.' && ends_segment(s, i + 2))
        }
}

fn is_portable_char_exec(c: char) -> (r: bool)
    ensures
        r == is_portable_char(c),
{
    let u = c as u32;
    u >= 0x20 && !(0x7f <= u && u <= 0x9f) && c != '\\' && c != ':'
}

/// Checks that a project input's logical path is relative and portable.
pub fn validate_logical_path(path: &str) -> (r: Result<(), String>)
    ensures
        r is Ok <==> is_portable_path(path@),
{
    let s = chars_of(path);
    let n = s.len();
    if n == 0 {
        return Err("logical path must not be empty".to_string());
    }
    let mut i: usize = 0;
    while i < n
        invariant
            s@ == path@,
            n == s.len(),
            n > 0,
            i <= n,
            forall|k: int| 0 <= k < i ==> #[trigger] is_portable_char(s@[k]),
            forall|k: int|
                0 <= k < i && #[trigger] begins_segment(s@, k) ==> !ends_segment(s@, k),
            forall|k: int|
                0 <= k < i && #[trigger] begins_segment(s@, k) && s@[k] == '.' ==> {
                    &&& !ends_segment(s@, k + 1)
                    &&& !(s@[k + 1] == '.' && ends_segment(s@, k + 2))
                },
        decreases n - i,
    {
        let begins = i == 0 || s[i - 1] == '/';
        let ends = s[i] == '/';
        if begins && ends {
            assert(begins_segment(s@, i as int) && ends_segment(s@, i as int));
            return Err("logical path must not contain an empty segment".to_string());
        }
        if !is_portable_char_exec(s[i]) {
            return Err("logical path contains a character that is not portable".to_string());
        }
        if begins && s[i] == '.' {
            let one = i + 1 == n || s[i + 1] == '/';
            let two = i + 1 < n && s[i + 1] == '.' && (i + 2 == n || s[i + 2] == '/');
            if one || two {
                assert(begins_segment(s@, i as int));
                return Err("logical path must not contain a relative segment".to_string());
            }
        }
        i = i + 1;
    }
    if s[n - 1] == '/' {
        assert(begins_segment(s@, n as int) && ends_segment(s@, n as int));
        return Err("logical path must not contain an empty segment".to_string());
    }
    assert forall|k: int| 0 <= k <= s@.len() && #[trigger] begins_segment(s@, k) implies !ends_segment(s@, k) by {
        if k == n {
        }
    }
    Ok(())
}

} // verus!
