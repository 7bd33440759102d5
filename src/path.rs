use vstd::prelude::*;
use vstd::string::*;
use vstd::utf8::*;

use crate::error::FsError;
use crate::text::{chars_of, string_of, utf8_string};

verus! {

/// A path separator accepted on input, whatever the host.
pub open spec fn is_sep(c: char) -> bool {
    c == '/' || c == '\\'
}

/// `s` with every separator replaced by `sep`.
pub open spec fn normalized(s: Seq<char>, sep: char) -> Seq<char> {
    s.map_values(|c: char| if is_sep(c) { sep } else { c })
}

/// `r` is `s` rewritten for one of the two separator conventions.
pub open spec fn normalized_on_some_host(s: Seq<char>, r: Seq<char>) -> bool {
    r == normalized(s, '/') || r == normalized(s, '\\')
}

/// Relies on `std::path::MAIN_SEPARATOR`: the host's separator, `/` or `\`.
#[verifier::external_body]
pub(crate) fn host_separator() -> (r: char)
    ensures
        is_sep(r),
{
    std::path::MAIN_SEPARATOR
}

/// Rewrites every `/` and `\` of `path` as `sep`.
pub fn normalize_with(path: &str, sep: char) -> (r: String)
    ensures
        r@ == normalized(path@, sep),
{
    let v = chars_of(path);
    let mut out: Vec<char> = Vec::new();
    let mut i: usize = 0;
    while i < v.len()
        invariant
            v@ == path@,
            i <= v@.len(),
            out@ == normalized(v@.subrange(0, i as int), sep),
        decreases v@.len() - i,
    {
        let c = v[i];
        if c == '/' || c == '\\' {
            out.push(sep);
        } else {
            out.push(c);
        }
        i = i + 1;
        assert(out@ =~= normalized(v@.subrange(0, i as int), sep));
    }
    assert(v@.subrange(0, v@.len() as int) =~= v@);
    string_of(out.as_slice())
}

/// Rewrites every `/` and `\` of `path` as the host's separator.
pub fn normalize_path(path: &str) -> (r: String)
    ensures
        normalized_on_some_host(path@, r@),
{
    let sep = host_separator();
    normalize_with(path, sep)
}

/// Normalizing keeps every segment and its order: each separator, of either
/// kind, becomes `sep` where it stood, and every other character stays as it was.
pub proof fn lemma_normalize_keeps_segments(s: Seq<char>, sep: char)
    requires
        is_sep(sep),
    ensures
        normalized(s, sep).len() == s.len(),
        forall|i: int| 0 <= i < s.len() && is_sep(s[i]) ==> #[trigger] normalized(s, sep)[i] == sep,
        forall|i: int|
            0 <= i < s.len() && !is_sep(s[i]) ==> #[trigger] normalized(s, sep)[i] == s[i],
        forall|i: int|
            0 <= i < s.len() ==> (is_sep(#[trigger] normalized(s, sep)[i]) <==> is_sep(s[i])),
{
}

/// The value of an ASCII hexadecimal digit.
pub open spec fn hex_value(b: u8) -> Option<u8> {
    if 48 <= b <= 57 {
        Some((b - 48) as u8)
    } else if 97 <= b <= 102 {
        Some((b - 87) as u8)
    } else if 65 <= b <= 70 {
        Some((b - 55) as u8)
    } else {
        None
    }
}

/// `o` with `p` put in front of what it holds.
pub open spec fn prefixed(p: Seq<u8>, o: Option<Seq<u8>>) -> Option<Seq<u8>> {
    match o {
        Some(r) => Some(p + r),
        None => None,
    }
}

/// `b` with each `%XX` escape replaced by the byte it names, or `None` where
/// a `%` is not followed by two hexadecimal digits.
pub open spec fn percent_decoded(b: Seq<u8>) -> Option<Seq<u8>>
    decreases b.len(),
{
    if b.len() == 0 {
        Some(Seq::<u8>::empty())
    } else if b[0] == 37u8 {
        if b.len() < 3 || hex_value(b[1]) is None || hex_value(b[2]) is None {
            None
        } else {
            prefixed(
                seq![(hex_value(b[1])->0 * 16 + hex_value(b[2])->0) as u8],
                percent_decoded(b.subrange(3, b.len() as int)),
            )
        }
    } else {
        prefixed(seq![b[0]], percent_decoded(b.drop_first()))
    }
}

fn hex_digit(b: u8) -> (r: Option<u8>)
    ensures
        r == hex_value(b),
        r matches Some(v) ==> v < 16,
{
    if 48 <= b && b <= 57 {
        Some(b - 48)
    } else if 97 <= b && b <= 102 {
        Some(b - 87)
    } else if 65 <= b && b <= 70 {
        Some(b - 55)
    } else {
        None
    }
}

/// Replaces each `%XX` escape of `b` by the byte it names; `None` on a malformed escape.
pub fn percent_decode(b: &[u8]) -> (r: Option<Vec<u8>>)
    ensures
        match r {
            Some(v) => percent_decoded(b@) == Some(v@),
            None => percent_decoded(b@) is None,
        },
{
    let n = b.len();
    let mut out: Vec<u8> = Vec::new();
    let mut i: usize = 0;
    assert(b@.subrange(0, n as int) =~= b@);
    assert(out@ + Seq::<u8>::empty() =~= out@);
    while i < n
        invariant
            n == b@.len(),
            i <= n,
            percent_decoded(b@) == prefixed(out@, percent_decoded(b@.subrange(i as int, n as int))),
        decreases n - i,
    {
        let ghost rest = b@.subrange(i as int, n as int);
        let ghost pre = out@;
        if b[i] == 37u8 {
            if n - i < 3 {
                return None;
            }
            let hi = hex_digit(b[i + 1]);
            let lo = hex_digit(b[i + 2]);
            match (hi, lo) {
                (Some(h), Some(l)) => {
                    let v: u8 = h * 16 + l;
                    out.push(v);
                    assert(rest.subrange(3, rest.len() as int) =~= b@.subrange(i + 3, n as int));
                    proof {
                        let tail = percent_decoded(b@.subrange(i + 3, n as int));
                        if tail is Some {
                            assert(pre + (seq![v] + tail->0) =~= out@ + tail->0);
                        }
                    }
                    i = i + 3;
                },
                _ => {
                    return None;
                },
            }
        } else {
            out.push(b[i]);
            assert(rest.drop_first() =~= b@.subrange(i + 1, n as int));
            proof {
                let tail = percent_decoded(b@.subrange(i + 1, n as int));
                if tail is Some {
                    assert(pre + (seq![b@[i as int]] + tail->0) =~= out@ + tail->0);
                }
            }
            i = i + 1;
        }
    }
    assert(b@.subrange(n as int, n as int) =~= Seq::<u8>::empty());
    assert(out@ + Seq::<u8>::empty() =~= out@);
    Some(out)
}

/// What `from_encoded` gives for `raw`: the percent-decoded text, normalized;
/// `DecodeError` on a malformed escape or where the bytes are not UTF-8, and
/// `InvalidPath` where they hold a NUL byte.
pub open spec fn from_encoded_ok(raw: Seq<char>, r: Result<String, FsError>) -> bool {
    match percent_decoded(encode_utf8(raw)) {
        None => r == Err::<String, FsError>(FsError::DecodeError),
        Some(b) => if b.contains(0u8) {
            r == Err::<String, FsError>(FsError::InvalidPath)
        } else if !valid_utf8(b) {
            r == Err::<String, FsError>(FsError::DecodeError)
        } else {
            r matches Ok(p) && normalized_on_some_host(decode_utf8(b), p@)
        },
    }
}

fn has_nul(b: &[u8]) -> (r: bool)
    ensures
        r == b@.contains(0u8),
{
    let mut i: usize = 0;
    while i < b.len()
        invariant
            i <= b@.len(),
            forall|k: int| 0 <= k < i ==> b@[k] != 0u8,
        decreases b@.len() - i,
    {
        if b[i] == 0u8 {
            return true;
        }
        i = i + 1;
    }
    false
}

/// A path that arrives URL-encoded: percent-decoded, then normalized.
pub fn from_encoded(raw: &str) -> (r: Result<String, FsError>)
    ensures
        from_encoded_ok(raw@, r),
{
    let bytes = raw.as_bytes();
    match percent_decode(bytes) {
        None => Err(FsError::DecodeError),
        Some(b) => {
            if has_nul(b.as_slice()) {
                return Err(FsError::InvalidPath);
            }
            match utf8_string(b) {
                None => Err(FsError::DecodeError),
                Some(text) => Ok(normalize_path(text.as_str())),
            }
        },
    }
}

/// The characters after the last separator of `s`.
pub open spec fn last_segment(s: Seq<char>) -> Seq<char>
    decreases s.len(),
{
    if s.len() == 0 || is_sep(s.last()) {
        Seq::<char>::empty()
    } else {
        last_segment(s.drop_last()).push(s.last())
    }
}

/// The final component of the path `s`, as `Path::file_name` finds it:
/// trailing separators and `.` components are passed over, and there is none
/// where the path is empty, only separators, or ends in `..`.
pub open spec fn file_name_of(s: Seq<char>) -> Option<Seq<char>>
    decreases s.len(),
{
    if s.len() == 0 {
        None
    } else if is_sep(s.last()) {
        file_name_of(s.drop_last())
    } else if last_segment(s) == "."@ {
        file_name_of(s.drop_last())
    } else if last_segment(s) == ".."@ {
        None
    } else {
        Some(last_segment(s))
    }
}

proof fn lemma_last_segment(s: Seq<char>, k: int)
    requires
        0 <= k <= s.len(),
        k == 0 || is_sep(s[k - 1]),
        forall|i: int| k <= i < s.len() ==> !is_sep(#[trigger] s[i]),
    ensures
        last_segment(s) == s.subrange(k, s.len() as int),
    decreases s.len(),
{
    if s.len() > k {
        lemma_last_segment(s.drop_last(), k);
        assert(s.subrange(k, s.len() as int) =~= s.drop_last().subrange(
            k,
            s.len() - 1,
        ).push(s.last()));
    } else {
        assert(s.subrange(k, s.len() as int) =~= Seq::<char>::empty());
        if k > 0 {
            assert(is_sep(s.last()));
        }
    }
}

/// The final component of `path`; `None` where it has none.
pub fn file_name(path: &str) -> (r: Option<String>)
    ensures
        opt_chars(r) == file_name_of(path@),
{
    let s = chars_of(path);
    let dot = chars_of(".");
    let dotdot = chars_of("..");
    let mut j: usize = s.len();
    assert(s@.subrange(0, j as int) =~= s@);
    while j > 0
        invariant
            s@ == path@,
            dot@ == "."@,
            dotdot@ == ".."@,
            j <= s@.len(),
            file_name_of(s@) == file_name_of(s@.subrange(0, j as int)),
        decreases j,
    {
        let ghost t = s@.subrange(0, j as int);
        assert(t.drop_last() =~= s@.subrange(0, j - 1));
        if s[j - 1] == '/' || s[j - 1] == '\\' {
            j = j - 1;
        } else {
            let mut k: usize = j - 1;
            while k > 0 && !(s[k - 1] == '/' || s[k - 1] == '\\')
                invariant
                    k < j <= s@.len(),
                    forall|i: int| k <= i < j ==> !is_sep(#[trigger] s@[i]),
                decreases k,
            {
                k = k - 1;
            }
            proof {
                lemma_last_segment(t, k as int);
                assert(t.subrange(k as int, j as int) =~= s@.subrange(k as int, j as int));
            }
            let mut seg: Vec<char> = Vec::new();
            let mut m: usize = k;
            while m < j
                invariant
                    k <= m <= j <= s@.len(),
                    seg@ == s@.subrange(k as int, m as int),
                decreases j - m,
            {
                seg.push(s[m]);
                m = m + 1;
            }
            if crate::text::chars_eq(seg.as_slice(), dot.as_slice()) {
                j = j - 1;
            } else if crate::text::chars_eq(seg.as_slice(), dotdot.as_slice()) {
                return None;
            } else {
                return Some(string_of(seg.as_slice()));
            }
        }
    }
    None
}

pub open spec fn opt_chars(o: Option<String>) -> Option<Seq<char>> {
    match o {
        Some(s) => Some(s@),
        None => None,
    }
}

} // verus!
