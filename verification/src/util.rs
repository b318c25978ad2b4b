//! Text building blocks for filenames and display strings: appending
//! characters, decimal and hexadecimal rendering, and the sanitization
//! that turns a target into a safe output filename.

use vstd::prelude::*;
use crate::parsing::v4_seq;
use crate::parsing::v6_body;
use crate::parsing::push_v4;
use crate::parsing::push_v6_body;
use crate::parsing::SocketAddress;
use crate::parsing::Target;

verus! {

/// Relies on `String::push`: appends the given character to the end of
/// the string.
#[verifier::external_body]
pub fn push_char(out: &mut String, c: char)
    ensures
        final (out)@ == old(out)@.push(c),
{
    out.push(c)
}

/// Relies on `String::pop`: removes the last character and returns it,
/// or returns `None` when the string is empty.
#[verifier::external_body]
pub fn pop_char(out: &mut String) -> (r: Option<char>)
    ensures
        old(out)@.len() == 0 ==> final (out)@ == old(out)@ && r is None,
        old(out)@.len() > 0 ==> final (out)@ == old(out)@.drop_last() && r == Some(
            old(out)@.last(),
        ),
{
    out.pop()
}

/// The character for one decimal digit.
pub open spec fn digit_char(d: int) -> char {
    ((0x30 + d) as u8) as char
}

/// The decimal rendering of `n`, most significant digit first.
pub open spec fn dec_seq(n: int) -> Seq<char>
    decreases n,
{
    if n < 10 {
        seq![digit_char(n)]
    } else {
        dec_seq(n / 10).push(digit_char(n % 10))
    }
}

/// Append the decimal rendering of `n`.
pub fn push_dec_u16(out: &mut String, n: u16)
    ensures
        final (out)@ == old(out)@ + dec_seq(n as int),
    decreases n,
{
    if n >= 10 {
        push_dec_u16(out, n / 10);
    }
    let d: u8 = (n % 10) as u8;
    push_char(out, (0x30u8 + d) as char);
    proof {
        assert(out@ =~= old(out)@ + dec_seq(n as int));
    }
}

/// The character for one hexadecimal digit, lower case.
pub open spec fn hex_digit_char(d: int) -> char {
    if d < 10 {
        ((0x30 + d) as u8) as char
    } else {
        ((0x61 + (d - 10)) as u8) as char
    }
}

/// The hexadecimal rendering of `n`, lower case, no leading zeroes.
pub open spec fn hex_seq(n: int) -> Seq<char>
    decreases n,
{
    if n < 16 {
        seq![hex_digit_char(n)]
    } else {
        hex_seq(n / 16).push(hex_digit_char(n % 16))
    }
}

/// Append the hexadecimal rendering of `n`, lower case.
pub fn push_hex_u16(out: &mut String, n: u16)
    ensures
        final (out)@ == old(out)@ + hex_seq(n as int),
    decreases n,
{
    if n >= 16 {
        push_hex_u16(out, n / 16);
    }
    let d: u8 = (n % 16) as u8;
    if d < 10 {
        push_char(out, (0x30u8 + d) as char);
    } else {
        push_char(out, (0x61u8 + (d - 10)) as char);
    }
    proof {
        assert(out@ =~= old(out)@ + hex_seq(n as int));
    }
}

/// One pass of filename sanitization over the characters of a target's
/// canonical form, starting at position `i`: a `://` scheme separator
/// becomes `_`, a slash becomes `-`, a colon or question mark becomes
/// `_`, and square brackets are dropped.
pub open spec fn sanitize_from(s: Seq<char>, i: int) -> Seq<char>
    decreases s.len() - i,
{
    if i < 0 || i >= s.len() {
        Seq::empty()
    } else if s[i] == ':' && i + 2 < s.len() && s[i + 1] == '/' && s[i + 2] == '/' {
        seq!['_'] + sanitize_from(s, i + 3)
    } else if s[i] == ':' || s[i] == '?' {
        seq!['_'] + sanitize_from(s, i + 1)
    } else if s[i] == '/' {
        seq!['-'] + sanitize_from(s, i + 1)
    } else if s[i] == '[' || s[i] == ']' {
        sanitize_from(s, i + 1)
    } else {
        seq![s[i]] + sanitize_from(s, i + 1)
    }
}

/// The string without its trailing hyphens.
pub open spec fn trim_hyphens(s: Seq<char>) -> Seq<char>
    decreases s.len(),
{
    if s.len() > 0 && s.last() == '-' {
        trim_hyphens(s.drop_last())
    } else {
        s
    }
}

/// Colons replaced by underscores.
pub open spec fn map_colon(s: Seq<char>) -> Seq<char> {
    Seq::new(
        s.len(),
        |i: int|
            if s[i] == ':' {
                '_'
            } else {
                s[i]
            },
    )
}

/// Append the sanitized form of `s`.
pub fn push_sanitized(out: &mut String, s: &str)
    ensures
        final (out)@ == old(out)@ + sanitize_from(s@, 0),
{
    let ghost init = out@;
    let len = s.unicode_len();
    let mut i: usize = 0;
    while i < len
        invariant
            len == s@.len(),
            i <= len,
            out@ + sanitize_from(s@, i as int) == init + sanitize_from(s@, 0),
        decreases len - i,
    {
        let ghost pre = out@;
        let c = s.get_char(i);
        if c == ':' && len - i > 2 && s.get_char(i + 1) == '/' && s.get_char(i + 2) == '/' {
            push_char(out, '_');
            proof {
                assert(sanitize_from(s@, i as int) =~= seq!['_'] + sanitize_from(s@, i + 3));
                assert(out@ + sanitize_from(s@, i + 3) =~= pre + sanitize_from(s@, i as int));
            }
            i = i + 3;
        } else if c == ':' || c == '?' {
            push_char(out, '_');
            proof {
                assert(out@ + sanitize_from(s@, i + 1) =~= pre + sanitize_from(s@, i as int));
            }
            i = i + 1;
        } else if c == '/' {
            push_char(out, '-');
            proof {
                assert(out@ + sanitize_from(s@, i + 1) =~= pre + sanitize_from(s@, i as int));
            }
            i = i + 1;
        } else if c == '[' || c == ']' {
            i = i + 1;
        } else {
            push_char(out, c);
            proof {
                assert(out@ + sanitize_from(s@, i + 1) =~= pre + sanitize_from(s@, i as int));
            }
            i = i + 1;
        }
    }
    proof {
        assert(out@ =~= init + sanitize_from(s@, 0));
    }
}

/// Remove trailing hyphens in place.
pub fn trim_trailing_hyphens(out: &mut String)
    ensures
        final (out)@ == trim_hyphens(old(out)@),
    decreases old(out)@.len(),
{
    let len = out.as_str().unicode_len();
    if len > 0 {
        let c = out.as_str().get_char(len - 1);
        if c == '-' {
            pop_char(out);
            trim_trailing_hyphens(out);
        }
    }
}

/// Append `s` with every colon replaced by an underscore.
pub fn push_mapped_colon(out: &mut String, s: &str)
    ensures
        final (out)@ == old(out)@ + map_colon(s@),
{
    let ghost init = out@;
    let len = s.unicode_len();
    let mut i: usize = 0;
    while i < len
        invariant
            len == s@.len(),
            i <= len,
            out@ =~= init + map_colon(s@).take(i as int),
        decreases len - i,
    {
        let c = s.get_char(i);
        if c == ':' {
            push_char(out, '_');
        } else {
            push_char(out, c);
        }
        i = i + 1;
        proof {
            assert(out@ =~= init + map_colon(s@).take(i as int));
        }
    }
    proof {
        assert(map_colon(s@).take(len as int) =~= map_colon(s@));
    }
}

/// Whether `needle` occurs in `hay` starting at position `i`.
pub open spec fn contains_at(hay: Seq<char>, needle: Seq<char>, i: int) -> bool {
    0 <= i && i + needle.len() <= hay.len() && hay.subrange(i, i + needle.len()) == needle
}

/// Whether `needle` occurs anywhere in `hay`.
pub open spec fn spec_contains(hay: Seq<char>, needle: Seq<char>) -> bool {
    exists|i: int| contains_at(hay, needle, i)
}

/// Whether `needle` matches `hay` at position `i`.
fn match_at(hay: &str, needle: &str, i: usize) -> (r: bool)
    requires
        i + needle@.len() <= hay@.len(),
    ensures
        r == contains_at(hay@, needle@, i as int),
{
    let hlen = hay.unicode_len();
    let nlen = needle.unicode_len();
    let mut j: usize = 0;
    let mut ok = true;
    while j < nlen
        invariant
            hlen == hay@.len(),
            nlen == needle@.len(),
            i + nlen <= hay@.len(),
            j <= nlen,
            ok <==> (forall|k: int| 0 <= k < j ==> hay@[i + k] == needle@[k]),
        decreases nlen - j,
    {
        if ok && hay.get_char(i + j) != needle.get_char(j) {
            ok = false;
        }
        j = j + 1;
    }
    proof {
        if ok {
            assert(hay@.subrange(i as int, i + nlen) =~= needle@);
        } else {
            let k = choose|k: int| 0 <= k < nlen && hay@[i + k] != needle@[k];
            assert(hay@.subrange(i as int, i + nlen)[k] == hay@[i + k]);
            assert(hay@.subrange(i as int, i + nlen) != needle@);
        }
    }
    ok
}

/// Whether `s` begins with `prefix`.
pub fn str_starts_with(s: &str, prefix: &str) -> (r: bool)
    ensures
        r == contains_at(s@, prefix@, 0),
{
    let slen = s.unicode_len();
    let plen = prefix.unicode_len();
    if plen > slen {
        return false;
    }
    match_at(s, prefix, 0)
}

/// Whether one string contains another.
pub fn str_contains(hay: &str, needle: &str) -> (r: bool)
    ensures
        r == spec_contains(hay@, needle@),
{
    let hlen = hay.unicode_len();
    let nlen = needle.unicode_len();
    if nlen == 0 {
        proof {
            assert(hay@.subrange(0, 0) =~= needle@);
            assert(contains_at(hay@, needle@, 0));
        }
        return true;
    }
    if nlen > hlen {
        proof {
            assert(forall|i: int| !contains_at(hay@, needle@, i)) by {
                assert forall|i: int| !contains_at(hay@, needle@, i) by {
                    assert(needle@.len() > hay@.len());
                }
            }
        }
        return false;
    }
    let mut i: usize = 0;
    while i <= hlen - nlen
        invariant
            1 <= nlen,
            nlen <= hlen,
            hlen == hay@.len(),
            nlen == needle@.len(),
            i <= hlen - nlen + 1,
            forall|ii: int| 0 <= ii < i ==> !contains_at(hay@, needle@, ii),
        decreases hlen - nlen - i + 1,
    {
        if match_at(hay, needle, i) {
            return true;
        }
        i = i + 1;
    }
    proof {
        assert forall|ii: int| !contains_at(hay@, needle@, ii) by {
            if 0 <= ii && ii + needle@.len() <= hay@.len() {
                assert(ii < i);
            }
        }
    }
    false
}

/// The filename derived from a target's canonical form. An IPv4 address
/// keeps its dotted form with `-` before the port; an IPv6 address keeps
/// its compressed form with colons mapped to underscores, brackets
/// dropped and `-` before the port; a URL goes through one sanitization
/// pass with trailing hyphens trimmed.
pub open spec fn spec_target_filename(t: Target) -> Seq<char> {
    match t {
        Target::Address(SocketAddress::V4(a)) => v4_seq(
            a.octets[0] as int,
            a.octets[1] as int,
            a.octets[2] as int,
            a.octets[3] as int,
        ) + seq!['-'] + dec_seq(a.port as int),
        Target::Address(SocketAddress::V6(a)) => map_colon(v6_body(a.segments@)) + seq!['-']
            + dec_seq(a.port as int),
        Target::Url(u) => trim_hyphens(sanitize_from(u@, 0)),
    }
}

/// Derive the output filename stem for a target.
pub fn target_to_filename(target: &Target) -> (r: String)
    ensures
        r@ == spec_target_filename(*target),
{
    match target {
        Target::Address(SocketAddress::V4(a)) => {
            let mut out = String::new();
            push_v4(&mut out, a.octets[0], a.octets[1], a.octets[2], a.octets[3]);
            push_char(&mut out, '-');
            push_dec_u16(&mut out, a.port);
            proof {
                assert(out@ =~= spec_target_filename(*target));
            }
            out
        },
        Target::Address(SocketAddress::V6(a)) => {
            let mut body = String::new();
            push_v6_body(&mut body, &a.segments);
            let mut out = String::new();
            push_mapped_colon(&mut out, body.as_str());
            push_char(&mut out, '-');
            push_dec_u16(&mut out, a.port);
            proof {
                assert(out@ =~= spec_target_filename(*target));
            }
            out
        },
        Target::Url(u) => {
            let mut out = String::new();
            push_sanitized(&mut out, u.as_str());
            trim_trailing_hyphens(&mut out);
            out
        },
    }
}

/// A character that may stand in an output filename: no path separator,
/// no port or scheme colon, no brackets.
pub open spec fn filename_safe_char(c: char) -> bool {
    c != '/' && c != ':' && c != '[' && c != ']'
}

proof fn lemma_dec_seq_clean(n: int)
    requires
        n >= 0,
    ensures
        dec_seq(n).len() > 0,
        forall|k: int|
            0 <= k < dec_seq(n).len() ==> filename_safe_char(#[trigger] dec_seq(n)[k]) && dec_seq(
                n,
            )[k] != '-',
    decreases n,
{
    if n >= 10 {
        lemma_dec_seq_clean(n / 10);
    }
}

proof fn lemma_hex_seq_clean(n: int)
    requires
        n >= 0,
    ensures
        hex_seq(n).len() > 0,
        forall|k: int|
            0 <= k < hex_seq(n).len() ==> filename_safe_char(#[trigger] hex_seq(n)[k]) && hex_seq(
                n,
            )[k] != '-',
    decreases n,
{
    if n >= 16 {
        lemma_hex_seq_clean(n / 16);
    }
}

proof fn lemma_hex_join_clean(s: Seq<u16>, from: int, to: int)
    ensures
        forall|k: int|
            0 <= k < crate::parsing::hex_join(s, from, to).len() ==> (#[trigger] crate::parsing::hex_join(
                s,
                from,
                to,
            )[k]) != '-' && crate::parsing::hex_join(s, from, to)[k] != '/'
                && crate::parsing::hex_join(s, from, to)[k] != '['
                && crate::parsing::hex_join(s, from, to)[k] != ']',
    decreases to - from,
{
    if from < to {
        lemma_hex_seq_clean(s[from] as int);
        if from + 1 < to {
            lemma_hex_join_clean(s, from + 1, to);
            assert(crate::parsing::hex_join(s, from, to) == hex_seq(s[from] as int) + seq![':']
                + crate::parsing::hex_join(s, from + 1, to));
        } else {
            assert(crate::parsing::hex_join(s, from, to) == hex_seq(s[from] as int));
        }
    }
}

proof fn lemma_v6_body_clean(s: Seq<u16>)
    ensures
        forall|k: int|
            0 <= k < v6_body(s).len() ==> (#[trigger] v6_body(s)[k]) != '-' && v6_body(s)[k] != '/'
                && v6_body(s)[k] != '[' && v6_body(s)[k] != ']',
{
    if crate::parsing::is_ipv4_mapped(s) {
        lemma_dec_seq_clean(s[6] as int / 256);
        lemma_dec_seq_clean(s[6] as int % 256);
        lemma_dec_seq_clean(s[7] as int / 256);
        lemma_dec_seq_clean(s[7] as int % 256);
    } else {
        let br = crate::parsing::best_run_from(s, 0);
        lemma_hex_join_clean(s, 0, 8);
        lemma_hex_join_clean(s, 0, br.0);
        lemma_hex_join_clean(s, br.0 + br.1, 8);
    }
}

proof fn lemma_sanitize_safe(s: Seq<char>, i: int)
    ensures
        forall|k: int|
            0 <= k < sanitize_from(s, i).len() ==> filename_safe_char(
                #[trigger] sanitize_from(s, i)[k],
            ),
    decreases s.len() - i,
{
    if 0 <= i < s.len() {
        if s[i] == ':' && i + 2 < s.len() && s[i + 1] == '/' && s[i + 2] == '/' {
            lemma_sanitize_safe(s, i + 3);
            assert(sanitize_from(s, i) == seq!['_'] + sanitize_from(s, i + 3));
        } else if s[i] == ':' || s[i] == '?' {
            lemma_sanitize_safe(s, i + 1);
            assert(sanitize_from(s, i) == seq!['_'] + sanitize_from(s, i + 1));
        } else if s[i] == '/' {
            lemma_sanitize_safe(s, i + 1);
            assert(sanitize_from(s, i) == seq!['-'] + sanitize_from(s, i + 1));
        } else if s[i] == '[' || s[i] == ']' {
            lemma_sanitize_safe(s, i + 1);
        } else {
            lemma_sanitize_safe(s, i + 1);
            assert(sanitize_from(s, i) == seq![s[i]] + sanitize_from(s, i + 1));
        }
    }
}

proof fn lemma_trim_hyphens(s: Seq<char>)
    ensures
        trim_hyphens(s).len() <= s.len(),
        forall|k: int| 0 <= k < trim_hyphens(s).len() ==> #[trigger] trim_hyphens(s)[k] == s[k],
        trim_hyphens(s).len() > 0 ==> trim_hyphens(s).last() != '-',
    decreases s.len(),
{
    if s.len() > 0 && s.last() == '-' {
        lemma_trim_hyphens(s.drop_last());
    }
}

/// Filename sanitization: whatever the target, its derived filename
/// contains no slash, colon or square bracket, and does not end in a
/// hyphen.
pub proof fn lemma_filename_sanitized(t: &Target)
    ensures
        forall|k: int|
            0 <= k < spec_target_filename(*t).len() ==> filename_safe_char(
                #[trigger] spec_target_filename(*t)[k],
            ),
        spec_target_filename(*t).len() > 0 ==> spec_target_filename(*t).last() != '-',
{
    match t {
        Target::Address(SocketAddress::V4(a)) => {
            lemma_dec_seq_clean(a.octets[0] as int);
            lemma_dec_seq_clean(a.octets[1] as int);
            lemma_dec_seq_clean(a.octets[2] as int);
            lemma_dec_seq_clean(a.octets[3] as int);
            lemma_dec_seq_clean(a.port as int);
        },
        Target::Address(SocketAddress::V6(a)) => {
            lemma_v6_body_clean(a.segments@);
            lemma_dec_seq_clean(a.port as int);
        },
        Target::Url(u) => {
            lemma_sanitize_safe(u@, 0);
            lemma_trim_hyphens(sanitize_from(u@, 0));
        },
    }
}

} // verus!
