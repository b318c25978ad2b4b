//! Capture targets. A target is either a resolved socket address (used
//! by the RDP and VNC engines) or a URL in its canonical text form (used
//! by the web engine). Equality and ordering go by the canonical string
//! form, which is also what output filenames are derived from.

use vstd::prelude::*;
use crate::util::dec_seq;
use crate::util::hex_seq;
use crate::util::push_char;
use crate::util::push_dec_u16;
use crate::util::push_hex_u16;

verus! {

/// An IPv4 socket address: four octets and a port.
#[derive(Copy, Clone, PartialEq, Eq, Debug)]
pub struct AddrV4 {
    pub octets: [u8; 4],
    pub port: u16,
}

/// An IPv6 socket address: eight 16-bit segments and a port.
#[derive(Copy, Clone, PartialEq, Eq, Debug)]
pub struct AddrV6 {
    pub segments: [u16; 8],
    pub port: u16,
}

/// A resolved socket address of either family.
#[derive(Copy, Clone, PartialEq, Eq, Debug)]
pub enum SocketAddress {
    V4(AddrV4),
    V6(AddrV6),
}

/// One capture target.
#[derive(Debug)]
pub enum Target {
    Address(SocketAddress),
    Url(String),
}

/// The dotted-decimal rendering of four octets.
pub open spec fn v4_seq(a: int, b: int, c: int, d: int) -> Seq<char> {
    dec_seq(a) + seq!['.'] + dec_seq(b) + seq!['.'] + dec_seq(c) + seq!['.'] + dec_seq(d)
}

/// The length of the run of zero segments starting at `i`.
pub open spec fn run_len(s: Seq<u16>, i: int) -> int
    decreases 8 - i,
{
    if i < 0 || i >= 8 {
        0
    } else if s[i] != 0 {
        0
    } else {
        1 + run_len(s, i + 1)
    }
}

/// The leftmost longest run of zero segments at or after `i`, as a
/// `(start, length)` pair; `(8, 0)` when there is none.
pub open spec fn best_run_from(s: Seq<u16>, i: int) -> (int, int)
    decreases 8 - i,
{
    if i < 0 || i >= 8 {
        (8, 0)
    } else {
        let rest = best_run_from(s, i + 1);
        let l = run_len(s, i);
        if l >= rest.1 {
            (i, l)
        } else {
            rest
        }
    }
}

/// The segments `[from, to)` rendered in hexadecimal, separated by `:`.
pub open spec fn hex_join(s: Seq<u16>, from: int, to: int) -> Seq<char>
    decreases to - from,
{
    if from >= to {
        Seq::empty()
    } else if from + 1 == to {
        hex_seq(s[from] as int)
    } else {
        hex_seq(s[from] as int) + seq![':'] + hex_join(s, from + 1, to)
    }
}

/// Whether the segments denote an IPv4-mapped address, which is rendered
/// with a dotted-decimal tail.
pub open spec fn is_ipv4_mapped(s: Seq<u16>) -> bool {
    s[0] == 0 && s[1] == 0 && s[2] == 0 && s[3] == 0 && s[4] == 0 && s[5] == 0xffff
}

/// The canonical text of an IPv6 address, without brackets or port: the
/// leftmost longest run of two or more zero segments is compressed to
/// `::`, and an IPv4-mapped address shows its dotted-decimal tail.
pub open spec fn v6_body(s: Seq<u16>) -> Seq<char> {
    if is_ipv4_mapped(s) {
        seq![':', ':', 'f', 'f', 'f', 'f', ':'] + v4_seq(
            s[6] as int / 256,
            s[6] as int % 256,
            s[7] as int / 256,
            s[7] as int % 256,
        )
    } else {
        let br = best_run_from(s, 0);
        if br.1 <= 1 {
            hex_join(s, 0, 8)
        } else {
            hex_join(s, 0, br.0) + seq![':', ':'] + hex_join(s, br.0 + br.1, 8)
        }
    }
}

/// The run of zero segments starting at `i`, executably.
fn run_len_at(segments: &[u16; 8], i: usize) -> (l: usize)
    ensures
        l == run_len(segments@, i as int),
        i < 8 ==> l <= 8 - i,
        i >= 8 ==> l == 0,
    decreases 8 - i,
{
    if i >= 8 {
        0
    } else if segments[i] != 0 {
        0
    } else {
        1 + run_len_at(segments, i + 1)
    }
}

/// The leftmost longest zero run at or after `i`, executably.
fn best_run_at(segments: &[u16; 8], i: usize) -> (r: (usize, usize))
    ensures
        r.0 == best_run_from(segments@, i as int).0,
        r.1 == best_run_from(segments@, i as int).1,
        r.0 <= 8,
        r.1 <= 8 - r.0,
    decreases 8 - i,
{
    if i >= 8 {
        (8, 0)
    } else {
        let rest = best_run_at(segments, i + 1);
        let l = run_len_at(segments, i);
        if l >= rest.1 {
            (i, l)
        } else {
            rest
        }
    }
}

/// Append the segments `[from, to)` in hexadecimal, separated by `:`.
fn push_hex_join(out: &mut String, segments: &[u16; 8], from: usize, to: usize)
    requires
        to <= 8,
    ensures
        final (out)@ == old(out)@ + hex_join(segments@, from as int, to as int),
    decreases to - from,
{
    if from < to {
        push_hex_u16(out, segments[from]);
        if from + 1 < to {
            push_char(out, ':');
            push_hex_join(out, segments, from + 1, to);
        }
    }
    proof {
        assert(out@ =~= old(out)@ + hex_join(segments@, from as int, to as int));
    }
}

/// Append the dotted-decimal rendering of four octets.
pub fn push_v4(out: &mut String, a: u8, b: u8, c: u8, d: u8)
    ensures
        final (out)@ == old(out)@ + v4_seq(a as int, b as int, c as int, d as int),
{
    push_dec_u16(out, a as u16);
    push_char(out, '.');
    push_dec_u16(out, b as u16);
    push_char(out, '.');
    push_dec_u16(out, c as u16);
    push_char(out, '.');
    push_dec_u16(out, d as u16);
    proof {
        assert(out@ =~= old(out)@ + v4_seq(a as int, b as int, c as int, d as int));
    }
}

/// Append the canonical text of an IPv6 address, without brackets.
pub fn push_v6_body(out: &mut String, segments: &[u16; 8])
    ensures
        final (out)@ == old(out)@ + v6_body(segments@),
{
    if segments[0] == 0 && segments[1] == 0 && segments[2] == 0 && segments[3] == 0 && segments[4]
        == 0 && segments[5] == 0xffff {
        push_char(out, ':');
        push_char(out, ':');
        push_char(out, 'f');
        push_char(out, 'f');
        push_char(out, 'f');
        push_char(out, 'f');
        push_char(out, ':');
        push_v4(
            out,
            (segments[6] / 256) as u8,
            (segments[6] % 256) as u8,
            (segments[7] / 256) as u8,
            (segments[7] % 256) as u8,
        );
    } else {
        let (bs, bl) = best_run_at(segments, 0);
        if bl <= 1 {
            push_hex_join(out, segments, 0, 8);
        } else {
            push_hex_join(out, segments, 0, bs);
            push_char(out, ':');
            push_char(out, ':');
            push_hex_join(out, segments, bs + bl, 8);
        }
    }
    proof {
        assert(out@ =~= old(out)@ + v6_body(segments@));
    }
}

impl AddrV4 {
    /// The canonical text `a.b.c.d:port`.
    pub open spec fn display_seq(&self) -> Seq<char> {
        v4_seq(
            self.octets[0] as int,
            self.octets[1] as int,
            self.octets[2] as int,
            self.octets[3] as int,
        ) + seq![':'] + dec_seq(self.port as int)
    }
}

impl AddrV6 {
    /// The canonical text `[body]:port`.
    pub open spec fn display_seq(&self) -> Seq<char> {
        seq!['['] + v6_body(self.segments@) + seq![']', ':'] + dec_seq(self.port as int)
    }
}

impl SocketAddress {
    pub open spec fn display_seq(&self) -> Seq<char> {
        match self {
            SocketAddress::V4(a) => a.display_seq(),
            SocketAddress::V6(a) => a.display_seq(),
        }
    }
}

impl Target {
    /// The canonical string form: the address text, or the URL as given.
    pub open spec fn display_seq(&self) -> Seq<char> {
        match self {
            Target::Address(a) => a.display_seq(),
            Target::Url(u) => u@,
        }
    }

    /// Render the canonical string form.
    pub fn display_string(&self) -> (r: String)
        ensures
            r@ == self.display_seq(),
    {
        match self {
            Target::Address(SocketAddress::V4(a)) => {
                let mut out = String::new();
                push_v4(&mut out, a.octets[0], a.octets[1], a.octets[2], a.octets[3]);
                push_char(&mut out, ':');
                push_dec_u16(&mut out, a.port);
                proof {
                    assert(out@ =~= self.display_seq());
                }
                out
            },
            Target::Address(SocketAddress::V6(a)) => {
                let mut out = String::new();
                push_char(&mut out, '[');
                push_v6_body(&mut out, &a.segments);
                push_char(&mut out, ']');
                push_char(&mut out, ':');
                push_dec_u16(&mut out, a.port);
                proof {
                    assert(out@ =~= self.display_seq());
                }
                out
            },
            Target::Url(u) => u.clone(),
        }
    }
}

/// Whether some target in `s` has the given canonical string.
pub open spec fn has_key(s: Seq<Target>, k: Seq<char>) -> bool {
    exists|j: int| 0 <= j < s.len() && s[j].display_seq() == k
}

/// Strict lexicographic order on canonical strings, by code point: the
/// order `sort` gives byte-wise on UTF-8 text.
pub open spec fn lex_lt(a: Seq<char>, b: Seq<char>) -> bool
    decreases a.len(),
{
    if b.len() == 0 {
        false
    } else if a.len() == 0 {
        true
    } else if (a[0] as u32) < (b[0] as u32) {
        true
    } else if (a[0] as u32) > (b[0] as u32) {
        false
    } else {
        lex_lt(a.drop_first(), b.drop_first())
    }
}

/// Characters with the same code point are the same character.
proof fn lemma_char_inj(x: char, y: char)
    requires
        (x as u32) == (y as u32),
    ensures
        x == y,
{
    vstd::utf8::char_u32_cast(x, x as u32);
    vstd::utf8::char_u32_cast(y, y as u32);
}

/// No string is below itself.
pub proof fn lemma_lex_irrefl(a: Seq<char>)
    ensures
        !lex_lt(a, a),
    decreases a.len(),
{
    if a.len() > 0 {
        lemma_lex_irrefl(a.drop_first());
    }
}

/// Any two strings compare: one is below the other, or they are equal.
pub proof fn lemma_lex_total(a: Seq<char>, b: Seq<char>)
    ensures
        lex_lt(a, b) || lex_lt(b, a) || a == b,
    decreases a.len(),
{
    if a.len() == 0 && b.len() == 0 {
        assert(a =~= b);
    } else if a.len() > 0 && b.len() > 0 {
        let x: char = a[0];
        let y: char = b[0];
        if (x as u32) == (y as u32) {
            lemma_char_inj(x, y);
            lemma_lex_total(a.drop_first(), b.drop_first());
            if a.drop_first() == b.drop_first() {
                assert(a.drop_first().len() == b.drop_first().len());
                assert(a.len() == b.len());
                assert forall|k: int| 0 <= k < a.len() implies a[k] == b[k] by {
                    if k > 0 {
                        assert(a.drop_first()[k - 1] == a[k]);
                        assert(b.drop_first()[k - 1] == b[k]);
                    }
                }
                assert(a =~= b);
            }
        }
    }
}

/// The order is transitive.
pub proof fn lemma_lex_trans(a: Seq<char>, b: Seq<char>, c: Seq<char>)
    requires
        lex_lt(a, b),
        lex_lt(b, c),
    ensures
        lex_lt(a, c),
    decreases a.len(),
{
    if c.len() == 0 {
        // lex_lt(b, c) cannot hold
    } else if a.len() == 0 {
        // the empty string is below every non-empty one
    } else if b.len() == 0 {
        // lex_lt(a, b) cannot hold
    } else if (a[0] as u32) == (b[0] as u32) && (b[0] as u32) == (c[0] as u32) {
        let x: char = a[0];
        let y: char = b[0];
        let z: char = c[0];
        lemma_char_inj(x, y);
        lemma_char_inj(y, z);
        lemma_lex_trans(a.drop_first(), b.drop_first(), c.drop_first());
    } else {
        assert((a[0] as u32) <= (b[0] as u32) && (b[0] as u32) <= (c[0] as u32));
        assert((a[0] as u32) < (c[0] as u32));
    }
}

/// `t` placed into a key-sorted, key-unique sequence: dropped if its
/// canonical string is already there, else inserted before the first
/// larger key.
pub open spec fn insert_sorted_unique(s: Seq<Target>, t: Target) -> Seq<Target>
    decreases s.len(),
{
    if s.len() == 0 {
        seq![t]
    } else if t.display_seq() == s[0].display_seq() {
        s
    } else if lex_lt(t.display_seq(), s[0].display_seq()) {
        seq![t] + s
    } else {
        seq![s[0]] + insert_sorted_unique(s.drop_first(), t)
    }
}

/// The input sorted by canonical string, with one target per canonical
/// string: each string keeps its earliest occurrence.
pub open spec fn sorted_dedup(s: Seq<Target>) -> Seq<Target>
    decreases s.len(),
{
    if s.len() == 0 {
        s
    } else {
        insert_sorted_unique(sorted_dedup(s.drop_last()), s.last())
    }
}

/// Strictly ascending canonical strings: sorted, and no two alike.
pub open spec fn keys_sorted(s: Seq<Target>) -> bool {
    forall|i: int, j: int|
        0 <= i < j < s.len() ==> lex_lt(
            #[trigger] s[i].display_seq(),
            #[trigger] s[j].display_seq(),
        )
}

proof fn lemma_insert_sorted_unique(s: Seq<Target>, t: Target)
    requires
        keys_sorted(s),
    ensures
        keys_sorted(insert_sorted_unique(s, t)),
        forall|i: int|
            0 <= i < insert_sorted_unique(s, t).len() ==> (#[trigger] insert_sorted_unique(s, t)[i]
                == t || exists|j: int| 0 <= j < s.len() && insert_sorted_unique(s, t)[i] == s[j]),
        has_key(insert_sorted_unique(s, t), t.display_seq()),
        forall|k: Seq<char>| has_key(s, k) ==> #[trigger] has_key(insert_sorted_unique(s, t), k),
    decreases s.len(),
{
    let r = insert_sorted_unique(s, t);
    if s.len() == 0 {
        assert(r[0] == t);
    } else if t.display_seq() == s[0].display_seq() {
        assert(r == s);
        assert(r[0].display_seq() == t.display_seq());
        assert(has_key(r, t.display_seq()));
    } else if lex_lt(t.display_seq(), s[0].display_seq()) {
        assert(r == seq![t] + s);
        assert(r[0] == t);
        assert forall|i: int, j: int| 0 <= i < j < r.len() implies lex_lt(
            #[trigger] r[i].display_seq(),
            #[trigger] r[j].display_seq(),
        ) by {
            if i == 0 {
                if j > 1 {
                    lemma_lex_trans(t.display_seq(), s[0].display_seq(), r[j].display_seq());
                }
            }
        }
        assert forall|k: Seq<char>| has_key(s, k) implies #[trigger] has_key(r, k) by {
            let j = choose|j: int| 0 <= j < s.len() && s[j].display_seq() == k;
            assert(r[j + 1].display_seq() == k);
        }
    } else {
        let rest = insert_sorted_unique(s.drop_first(), t);
        assert(keys_sorted(s.drop_first())) by {
            assert(forall|i: int|
                0 <= i < s.drop_first().len() ==> #[trigger] s.drop_first()[i] == s[i + 1]);
        }
        lemma_insert_sorted_unique(s.drop_first(), t);
        assert(r == seq![s[0]] + rest);
        // every key in `rest` is either t's key or a key from the tail,
        // and both sit above s[0]'s key
        lemma_lex_total(t.display_seq(), s[0].display_seq());
        assert(lex_lt(s[0].display_seq(), t.display_seq()));
        assert forall|i: int, j: int| 0 <= i < j < r.len() implies lex_lt(
            #[trigger] r[i].display_seq(),
            #[trigger] r[j].display_seq(),
        ) by {
            if i == 0 {
                assert(r[j] == rest[j - 1]);
                assert(rest[j - 1] == t || exists|jj: int|
                    0 <= jj < s.drop_first().len() && rest[j - 1] == s.drop_first()[jj]);
                if rest[j - 1] == t {
                } else {
                    let jj = choose|jj: int|
                        0 <= jj < s.drop_first().len() && rest[j - 1] == s.drop_first()[jj];
                    assert(s.drop_first()[jj] == s[jj + 1]);
                }
            } else {
                assert(r[i] == rest[i - 1] && r[j] == rest[j - 1]);
            }
        }
        assert forall|k: Seq<char>| has_key(s, k) implies #[trigger] has_key(r, k) by {
            let j = choose|j: int| 0 <= j < s.len() && s[j].display_seq() == k;
            if j == 0 {
                assert(r[0].display_seq() == k);
            } else {
                assert(s.drop_first()[j - 1].display_seq() == k);
                assert(has_key(s.drop_first(), k));
                assert(has_key(rest, k));
                let jj = choose|jj: int| 0 <= jj < rest.len() && rest[jj].display_seq() == k;
                assert(r[jj + 1].display_seq() == k);
            }
        }
        assert(has_key(rest, t.display_seq()));
        let jj = choose|jj: int| 0 <= jj < rest.len() && rest[jj].display_seq() == t.display_seq();
        assert(r[jj + 1].display_seq() == t.display_seq());
        assert forall|i: int| 0 <= i < r.len() implies (#[trigger] r[i] == t || exists|j: int|
            0 <= j < s.len() && r[i] == s[j]) by {
            if i == 0 {
                assert(r[0] == s[0]);
            } else {
                assert(r[i] == rest[i - 1]);
                if rest[i - 1] == t {
                } else {
                    let jj2 = choose|jj2: int|
                        0 <= jj2 < s.drop_first().len() && rest[i - 1] == s.drop_first()[jj2];
                    assert(rest[i - 1] == s[jj2 + 1]);
                }
            }
        }
    }
}

/// What deduplication delivers: strictly ascending canonical strings
/// (so no string twice), every element taken from the input, and no
/// input canonical string lost.
pub proof fn lemma_sorted_dedup_properties(s: Seq<Target>)
    ensures
        keys_sorted(sorted_dedup(s)),
        forall|i: int, j: int|
            0 <= i < sorted_dedup(s).len() && 0 <= j < sorted_dedup(s).len() && i != j
                ==> (#[trigger] sorted_dedup(s)[i]).display_seq() != (
            #[trigger] sorted_dedup(s)[j]).display_seq(),
        forall|i: int|
            0 <= i < sorted_dedup(s).len() ==> exists|j: int|
                0 <= j < s.len() && #[trigger] sorted_dedup(s)[i] == s[j],
        forall|j: int|
            0 <= j < s.len() ==> #[trigger] has_key(sorted_dedup(s), s[j].display_seq()),
    decreases s.len(),
{
    if s.len() > 0 {
        let rest = sorted_dedup(s.drop_last());
        lemma_sorted_dedup_properties(s.drop_last());
        lemma_insert_sorted_unique(rest, s.last());
        let r = sorted_dedup(s);
        assert(r == insert_sorted_unique(rest, s.last()));
        assert forall|i: int| 0 <= i < r.len() implies exists|j: int|
            0 <= j < s.len() && #[trigger] r[i] == s[j] by {
            if r[i] == s.last() {
                assert(r[i] == s[s.len() - 1]);
            } else {
                let jr = choose|jr: int| 0 <= jr < rest.len() && r[i] == rest[jr];
                let j = choose|j: int| 0 <= j < s.drop_last().len() && rest[jr] == s.drop_last()[j];
                assert(r[i] == s[j]);
            }
        }
        assert forall|j: int| 0 <= j < s.len() implies #[trigger] has_key(
            r,
            s[j].display_seq(),
        ) by {
            if j < s.len() - 1 {
                assert(s.drop_last()[j] == s[j]);
                assert(has_key(rest, s[j].display_seq()));
            } else {
                assert(s[j] == s.last());
            }
        }
    }
    let r0 = sorted_dedup(s);
    assert forall|i: int, j: int|
        0 <= i < r0.len() && 0 <= j < r0.len() && i != j implies (#[trigger] r0[i]).display_seq()
        != (#[trigger] r0[j]).display_seq() by {
        if i < j {
            assert(lex_lt(r0[i].display_seq(), r0[j].display_seq()));
            lemma_lex_irrefl(r0[i].display_seq());
        } else {
            assert(lex_lt(r0[j].display_seq(), r0[i].display_seq()));
            lemma_lex_irrefl(r0[j].display_seq());
        }
    }
}

/// Whether one of the first `upto` targets of `v` shares the canonical
/// string `key`.
/// `lex_lt(a, b)` is unchanged by dropping an equal prefix from both.
proof fn lemma_lex_lt_skip(a: Seq<char>, b: Seq<char>, i: int)
    requires
        0 <= i <= a.len(),
        i <= b.len(),
        forall|k: int| 0 <= k < i ==> a[k] == b[k],
    ensures
        lex_lt(a, b) == lex_lt(a.skip(i), b.skip(i)),
    decreases i,
{
    if i > 0 {
        assert(a[0] == b[0]);
        assert(a.skip(i) =~= a.drop_first().skip(i - 1));
        assert(b.skip(i) =~= b.drop_first().skip(i - 1));
        assert(forall|k: int| 0 <= k < i - 1 ==> a.drop_first()[k] == b.drop_first()[k]);
        lemma_lex_lt_skip(a.drop_first(), b.drop_first(), i - 1);
    } else {
        assert(a.skip(0) =~= a);
        assert(b.skip(0) =~= b);
    }
}

/// Compare two strings in strict lexicographic order.
fn lex_lt_str(a: &str, b: &str) -> (r: bool)
    ensures
        r == lex_lt(a@, b@),
{
    let alen = a.unicode_len();
    let blen = b.unicode_len();
    let mut i: usize = 0;
    while i < alen && i < blen
        invariant
            alen == a@.len(),
            blen == b@.len(),
            i <= alen,
            i <= blen,
            forall|k: int| 0 <= k < i ==> a@[k] == b@[k],
        decreases alen - i,
    {
        let ca = a.get_char(i);
        let cb = b.get_char(i);
        if (ca as u32) != (cb as u32) {
            proof {
                lemma_lex_lt_skip(a@, b@, i as int);
                assert(a@.skip(i as int)[0] == ca && b@.skip(i as int)[0] == cb);
            }
            return (ca as u32) < (cb as u32);
        }
        i = i + 1;
    }
    proof {
        lemma_lex_lt_skip(a@, b@, i as int);
    }
    i < blen
}

/// Place one target into a key-sorted, key-unique list: dropped when
/// its canonical string is already present, else inserted before the
/// first larger one.
fn insert_target(v: &mut Vec<Target>, t: Target)
    ensures
        final (v)@ == insert_sorted_unique(old(v)@, t),
{
    let tkey = t.display_string();
    proof {
        assert(v@.skip(0) =~= v@);
        assert(v@.take(0) + insert_sorted_unique(v@.skip(0), t) =~= insert_sorted_unique(v@, t));
    }
    let mut i: usize = 0;
    while i < v.len()
        invariant
            tkey@ == t.display_seq(),
            i <= v@.len(),
            v@ == old(v)@,
            insert_sorted_unique(v@, t) == v@.take(i as int) + insert_sorted_unique(
                v@.skip(i as int),
                t,
            ),
        decreases v@.len() - i,
    {
        let ghost pre = v@;
        let d = v[i].display_string();
        proof {
            assert(pre.skip(i as int)[0] == pre[i as int]);
        }
        if d.eq(&tkey) {
            proof {
                assert(insert_sorted_unique(pre.skip(i as int), t) == pre.skip(i as int));
                assert(pre.take(i as int) + pre.skip(i as int) =~= pre);
            }
            return ;
        }
        if lex_lt_str(tkey.as_str(), d.as_str()) {
            v.insert(i, t);
            proof {
                assert(insert_sorted_unique(pre.skip(i as int), t) == seq![t] + pre.skip(i as int));
                assert(v@ =~= pre.take(i as int) + (seq![t] + pre.skip(i as int)));
            }
            return ;
        }
        proof {
            lemma_lex_total(t.display_seq(), pre[i as int].display_seq());
            assert(lex_lt(pre[i as int].display_seq(), t.display_seq()));
            assert(insert_sorted_unique(pre.skip(i as int), t) == seq![pre[i as int]]
                + insert_sorted_unique(pre.skip(i as int).drop_first(), t));
            assert(pre.skip(i as int).drop_first() =~= pre.skip(i + 1));
            assert(pre.take(i as int) + (seq![pre[i as int]] + insert_sorted_unique(
                pre.skip(i + 1),
                t,
            )) =~= pre.take(i + 1) + insert_sorted_unique(pre.skip(i + 1), t));
        }
        i = i + 1;
    }
    proof {
        assert(v@.skip(i as int) =~= Seq::<Target>::empty());
        assert(insert_sorted_unique(v@.skip(i as int), t) == seq![t]);
    }
    let ghost pre = v@;
    v.push(t);
    proof {
        assert(v@ =~= pre.take(pre.len() as int) + seq![t]);
    }
}

/// A copy of `v` sorted by canonical string with one target per
/// canonical string, the earliest occurrence of each kept.
fn dedup_targets(v: &Vec<Target>) -> (r: Vec<Target>)
    ensures
        r@ == sorted_dedup(v@),
{
    let mut out: Vec<Target> = Vec::new();
    let mut i: usize = 0;
    while i < v.len()
        invariant
            i <= v@.len(),
            out@ == sorted_dedup(v@.take(i as int)),
        decreases v@.len() - i,
    {
        insert_target(&mut out, v[i].clone());
        proof {
            assert(v@.take(i + 1).drop_last() =~= v@.take(i as int));
            assert(v@.take(i + 1).last() == v@[i as int]);
            assert(out@ == sorted_dedup(v@.take(i + 1)));
        }
        i = i + 1;
    }
    proof {
        assert(v@.take(v@.len() as int) =~= v@);
    }
    out
}

/// The per-protocol target lists one run works through, already
/// resolved and deduplicated.
#[derive(Debug)]
pub struct InputLists {
    pub rdp_targets: Vec<Target>,
    pub web_targets: Vec<Target>,
    pub vnc_targets: Vec<Target>,
}

impl Default for InputLists {
    fn default() -> (r: Self)
        ensures
            r.rdp_targets@.len() == 0,
            r.web_targets@.len() == 0,
            r.vnc_targets@.len() == 0,
    {
        InputLists { rdp_targets: Vec::new(), web_targets: Vec::new(), vnc_targets: Vec::new() }
    }
}

impl InputLists {
    /// Move every target of `list` onto the end of the matching list of
    /// `self`, leaving `list` empty.
    pub fn append(&mut self, list: &mut InputLists)
        ensures
            final (self).rdp_targets@ == old(self).rdp_targets@ + old(list).rdp_targets@,
            final (self).web_targets@ == old(self).web_targets@ + old(list).web_targets@,
            final (self).vnc_targets@ == old(self).vnc_targets@ + old(list).vnc_targets@,
            final (list).rdp_targets@.len() == 0,
            final (list).web_targets@.len() == 0,
            final (list).vnc_targets@.len() == 0,
    {
        self.rdp_targets.append(&mut list.rdp_targets);
        self.web_targets.append(&mut list.web_targets);
        self.vnc_targets.append(&mut list.vnc_targets);
    }

    /// Sort each list by the targets' canonical strings and drop every
    /// repeated string, keeping its earliest occurrence; see
    /// `lemma_sorted_dedup_properties` for what the result guarantees.
    pub fn dedup(&mut self)
        ensures
            final (self).rdp_targets@ == sorted_dedup(old(self).rdp_targets@),
            final (self).web_targets@ == sorted_dedup(old(self).web_targets@),
            final (self).vnc_targets@ == sorted_dedup(old(self).vnc_targets@),
    {
        self.rdp_targets = dedup_targets(&self.rdp_targets);
        self.web_targets = dedup_targets(&self.web_targets);
        self.vnc_targets = dedup_targets(&self.vnc_targets);
    }
}

/// The listing of a target sequence: each target on its own indented
/// line.
pub open spec fn targets_block(s: Seq<Target>) -> Seq<char>
    decreases s.len(),
{
    if s.len() == 0 {
        Seq::empty()
    } else {
        targets_block(s.drop_last()) + "\n    "@ + s.last().display_seq()
    }
}

/// A target list section: its lines, or ` None` when it is empty.
pub open spec fn block_or_none(s: Seq<Target>) -> Seq<char> {
    if s.len() == 0 {
        " None"@
    } else {
        targets_block(s)
    }
}

/// The full listing of the three target lists.
pub open spec fn lists_display(l: InputLists) -> Seq<char> {
    "RDP targets:"@ + block_or_none(l.rdp_targets@) + "\nWeb targets:"@ + block_or_none(
        l.web_targets@,
    ) + "\nVNC targets:"@ + block_or_none(l.vnc_targets@)
}

/// Append one target list section.
fn push_block(out: &mut String, v: &Vec<Target>)
    ensures
        final (out)@ == old(out)@ + block_or_none(v@),
{
    let ghost init = out@;
    if v.len() == 0 {
        out.append(" None");
        return ;
    }
    let mut i: usize = 0;
    while i < v.len()
        invariant
            i <= v@.len(),
            out@ == init + targets_block(v@.take(i as int)),
        decreases v@.len() - i,
    {
        out.append("\n    ");
        let d = v[i].display_string();
        out.append(d.as_str());
        proof {
            assert(v@.take(i + 1).drop_last() =~= v@.take(i as int));
            assert(v@.take(i + 1).last() == v@[i as int]);
            assert(out@ =~= init + targets_block(v@.take(i + 1)));
        }
        i = i + 1;
    }
    proof {
        assert(v@.take(v@.len() as int) =~= v@);
    }
}

impl InputLists {
    /// Render the three target lists, one section per protocol.
    pub fn to_display_string(&self) -> (r: String)
        ensures
            r@ == lists_display(*self),
    {
        let mut out = String::from_str("RDP targets:");
        push_block(&mut out, &self.rdp_targets);
        out.append("\nWeb targets:");
        push_block(&mut out, &self.web_targets);
        out.append("\nVNC targets:");
        push_block(&mut out, &self.vnc_targets);
        proof {
            assert(out@ =~= lists_display(*self));
        }
        out
    }
}

impl Target {
    /// Whether this target sorts strictly before another, by canonical
    /// string: the order the deduplicated lists come out in.
    pub fn sorts_before(&self, other: &Target) -> (r: bool)
        ensures
            r == lex_lt(self.display_seq(), other.display_seq()),
    {
        let a = self.display_string();
        let b = other.display_string();
        lex_lt_str(a.as_str(), b.as_str())
    }
}

impl Clone for Target {
    /// An explicit clone, so that callers know the copy equals the
    /// original.
    fn clone(&self) -> (r: Self)
        ensures
            r == *self,
    {
        match self {
            Target::Address(a) => Target::Address(*a),
            Target::Url(u) => Target::Url(u.clone()),
        }
    }
}

} // verus!
