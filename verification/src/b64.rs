//! Base64 (RFC 4648): the encoder and the lenient decoder that the OPFS
//! commands use, and the `base64` crate's engines behind trusted wrappers.

use base64::Engine;
use vstd::prelude::*;

verus! {

/// The character for the 6-bit group `v` (`v < 64`); `url_safe` picks the
/// URL-safe alphabet, which has `-` and `_` in place of `+` and `/`.
pub open spec fn sextet_char(v: int, url_safe: bool) -> char {
    if v < 26 {
        (65 + v) as char
    } else if v < 52 {
        (97 + v - 26) as char
    } else if v < 62 {
        (48 + v - 52) as char
    } else if v == 62 {
        if url_safe { '-' } else { '+' }
    } else {
        if url_safe { '_' } else { '/' }
    }
}

/// The four characters that encode one chunk of up to three bytes; with
/// fewer than three bytes the missing characters are `=` when `pad` holds
/// and left out otherwise.
pub open spec fn chunk_spec(c: Seq<u8>, url_safe: bool, pad: bool) -> Seq<char> {
    let b0 = c[0] as int;
    let b1 = if c.len() > 1 { c[1] as int } else { 0 };
    let b2 = if c.len() > 2 { c[2] as int } else { 0 };
    let c0 = sextet_char(b0 / 4, url_safe);
    let c1 = sextet_char((b0 % 4) * 16 + b1 / 16, url_safe);
    let c2 = sextet_char((b1 % 16) * 4 + b2 / 64, url_safe);
    let c3 = sextet_char(b2 % 64, url_safe);
    if c.len() >= 3 {
        seq![c0, c1, c2, c3]
    } else if c.len() == 2 {
        if pad { seq![c0, c1, c2, '='] } else { seq![c0, c1, c2] }
    } else {
        if pad { seq![c0, c1, '=', '='] } else { seq![c0, c1] }
    }
}

/// The base64 text of `data`.
pub open spec fn encode_spec(data: Seq<u8>, url_safe: bool, pad: bool) -> Seq<char>
    decreases data.len(),
{
    if data.len() == 0 {
        Seq::empty()
    } else if data.len() <= 3 {
        chunk_spec(data, url_safe, pad)
    } else {
        chunk_spec(data.take(3), url_safe, pad) + encode_spec(data.skip(3), url_safe, pad)
    }
}

/// The value of a character of the standard alphabet, if it is one.
pub open spec fn sextet_value(c: char) -> Option<u8> {
    let u = c as u32;
    if 65 <= u <= 90 {
        Some((u - 65) as u8)
    } else if 97 <= u <= 122 {
        Some((u - 97 + 26) as u8)
    } else if 48 <= u <= 57 {
        Some((u - 48 + 52) as u8)
    } else if c == '+' {
        Some(62u8)
    } else if c == '/' {
        Some(63u8)
    } else {
        None
    }
}

/// The 6-bit values of the alphabet characters of `s`, other characters
/// left out.
pub open spec fn sextets_of(s: Seq<char>) -> Seq<u8>
    decreases s.len(),
{
    if s.len() == 0 {
        Seq::empty()
    } else {
        match sextet_value(s.last()) {
            Some(v) => sextets_of(s.drop_last()).push(v),
            None => sextets_of(s.drop_last()),
        }
    }
}

/// The bytes that a run of 6-bit values spells: every four values give
/// three bytes, a tail of two or three values gives one or two bytes, and
/// a tail of one value gives none.
pub open spec fn bytes_of_sextets(v: Seq<u8>) -> Seq<u8>
    decreases v.len(),
{
    if v.len() < 2 {
        Seq::empty()
    } else {
        let x0 = v[0] as int;
        let x1 = v[1] as int;
        let y0 = (x0 * 4 + x1 / 16) as u8;
        if v.len() == 2 {
            seq![y0]
        } else {
            let x2 = v[2] as int;
            let y1 = ((x1 % 16) * 16 + x2 / 4) as u8;
            if v.len() == 3 {
                seq![y0, y1]
            } else {
                let x3 = v[3] as int;
                let y2 = ((x2 % 4) * 64 + x3) as u8;
                seq![y0, y1, y2] + bytes_of_sextets(v.skip(4))
            }
        }
    }
}

/// The part of `s` before its first `=`.
pub open spec fn before_padding(s: Seq<char>) -> Seq<char>
    decreases s.len(),
{
    if s.len() == 0 || s[0] == '=' {
        Seq::empty()
    } else {
        seq![s[0]] + before_padding(s.drop_first())
    }
}

/// What the lenient decoder makes of `s`: it reads up to the first `=`,
/// skips every character outside the standard alphabet and joins the
/// 6-bit values of the others into bytes.
pub open spec fn lenient_decode_spec(s: Seq<char>) -> Seq<u8> {
    bytes_of_sextets(sextets_of(before_padding(s)))
}


/// The character for the 6-bit group `v`.
pub fn sextet_to_char(v: u8, url_safe: bool) -> (c: char)
    requires
        v < 64,
    ensures
        c == sextet_char(v as int, url_safe),
{
    if v < 26 {
        (65u8 + v) as char
    } else if v < 52 {
        (97u8 + v - 26) as char
    } else if v < 62 {
        (48u8 + v - 52) as char
    } else if v == 62 {
        if url_safe { '-' } else { '+' }
    } else {
        if url_safe { '_' } else { '/' }
    }
}

proof fn lemma_sextets_of_bits(b0: u8, b1: u8, b2: u8)
    ensures
        (b0 >> 2) & 0x3f == b0 / 4,
        ((b0 << 4) | (b1 >> 4)) & 0x3f == (b0 % 4) * 16 + b1 / 16,
        ((b1 << 2) | (b2 >> 6)) & 0x3f == (b1 % 16) * 4 + b2 / 64,
        b2 & 0x3f == b2 % 64,
{
    assert((b0 >> 2) & 0x3f == b0 / 4) by (bit_vector);
    assert(b0 < 256 && b1 < 256 ==> ((b0 << 4) | (b1 >> 4)) & 0x3f == (b0 % 4) * 16 + b1 / 16)
        by (bit_vector);
    assert(((b1 << 2) | (b2 >> 6)) & 0x3f == (b1 % 16) * 4 + b2 / 64) by (bit_vector);
    assert(b2 & 0x3f == b2 % 64) by (bit_vector);
}

proof fn lemma_encode_step(data: Seq<u8>, i: int, url_safe: bool, pad: bool)
    requires
        0 <= i < data.len(),
    ensures
        encode_spec(data.skip(i), url_safe, pad) == if data.len() - i <= 3 {
            chunk_spec(data.skip(i), url_safe, pad)
        } else {
            chunk_spec(data.skip(i).take(3), url_safe, pad) + encode_spec(
                data.skip(i + 3),
                url_safe,
                pad,
            )
        },
{
    if data.len() - i > 3 {
        assert(data.skip(i).skip(3) == data.skip(i + 3));
    }
}

/// The base64 text of `data` in the standard alphabet with `=` padding,
/// built chunk by chunk of three bytes.
pub fn base64_encode(data: &[u8]) -> (r: String)
    ensures
        r@ == encode_spec(data@, false, true),
{
    let mut r = String::new();
    let n = data.len();
    let mut i: usize = 0;
    assert(data@.skip(0) == data@);
    while i < n
        invariant
            i <= n,
            n == data@.len(),
            r@ + encode_spec(data@.skip(i as int), false, true) == encode_spec(data@, false, true),
        decreases n - i,
    {
        proof {
            lemma_encode_step(data@, i as int, false, true);
        }
        let ghost c = if n - i <= 3 { data@.skip(i as int) } else { data@.skip(i as int).take(3) };
        let ghost before = r@;
        let b0 = data[i];
        let b1: u8 = if n - i > 1 { data[i + 1] } else { 0 };
        let b2: u8 = if n - i > 2 { data[i + 2] } else { 0 };
        proof {
            lemma_sextets_of_bits(b0, b1, b2);
            assert(c[0] == b0);
            if c.len() > 1 { assert(c[1] == b1); }
            if c.len() > 2 { assert(c[2] == b2); }
        }
        r.push(sextet_to_char((b0 >> 2) & 0x3f, false));
        r.push(sextet_to_char(((b0 << 4) | (b1 >> 4)) & 0x3f, false));
        if n - i > 1 {
            r.push(sextet_to_char(((b1 << 2) | (b2 >> 6)) & 0x3f, false));
        } else {
            r.push('=');
        }
        if n - i > 2 {
            r.push(sextet_to_char(b2 & 0x3f, false));
        } else {
            r.push('=');
        }
        assert(r@ == before + chunk_spec(c, false, true));
        if n - i <= 3 {
            assert(data@.skip(n as int) == Seq::<u8>::empty());
            i = n;
        } else {
            i = i + 3;
        }
    }
    assert(data@.skip(n as int) == Seq::<u8>::empty());
    r
}


/// The value of an alphabet character, if `c` is one.
pub fn sextet_of_char(c: char) -> (r: Option<u8>)
    ensures
        r == sextet_value(c),
{
    let u = c as u32;
    if 65 <= u && u <= 90 {
        Some((u - 65) as u8)
    } else if 97 <= u && u <= 122 {
        Some((u - 97 + 26) as u8)
    } else if 48 <= u && u <= 57 {
        Some((u - 48 + 52) as u8)
    } else if c == '+' {
        Some(62u8)
    } else if c == '/' {
        Some(63u8)
    } else {
        None
    }
}

proof fn lemma_sextet_value_bound(c: char)
    ensures
        sextet_value(c) matches Some(v) ==> v < 64,
{
}

proof fn lemma_sextets_bound(s: Seq<char>)
    ensures
        forall|j: int| 0 <= j < sextets_of(s).len() ==> sextets_of(s)[j] < 64,
    decreases s.len(),
{
    if s.len() > 0 {
        lemma_sextets_bound(s.drop_last());
        lemma_sextet_value_bound(s.last());
        let p = sextets_of(s.drop_last());
        match sextet_value(s.last()) {
            Some(v) => {
                assert(sextets_of(s) == p.push(v));
                assert forall|j: int| 0 <= j < p.push(v).len() implies p.push(v)[j] < 64 by {
                    if j < p.len() {
                        assert(p.push(v)[j] == p[j]);
                    }
                }
            },
            None => {},
        }
    }
}

/// The bytes that appending `x` after `s` completes.
spec fn completed_by(s: Seq<u8>, x: u8) -> Seq<u8> {
    if s.len() % 4 == 0 {
        Seq::<u8>::empty()
    } else if s.len() % 4 == 1 {
        seq![(s.last() as int * 4 + x as int / 16) as u8]
    } else if s.len() % 4 == 2 {
        seq![((s.last() as int % 16) * 16 + x as int / 4) as u8]
    } else {
        seq![((s.last() as int % 4) * 64 + x as int) as u8]
    }
}

/// Appending one 6-bit value adds the bytes it completes.
proof fn lemma_bytes_push(s: Seq<u8>, x: u8)
    ensures
        bytes_of_sextets(s.push(x)) == bytes_of_sextets(s) + completed_by(s, x),
    decreases s.len(),
{
    let t = s.push(x);
    if s.len() >= 4 {
        lemma_bytes_push(s.skip(4), x);
        assert(t.skip(4) =~= s.skip(4).push(x));
        if s.skip(4).len() > 0 {
            assert(s.skip(4).last() == s.last());
        }
        assert(completed_by(s.skip(4), x) == completed_by(s, x));
        assert(t[0] == s[0] && t[1] == s[1] && t[2] == s[2] && t[3] == s[3]);
        assert(bytes_of_sextets(t) =~= bytes_of_sextets(s) + completed_by(s, x));
    } else if s.len() == 0 {
        assert(bytes_of_sextets(t) =~= Seq::<u8>::empty());
        assert(bytes_of_sextets(s) =~= Seq::<u8>::empty());
        assert(bytes_of_sextets(t) =~= bytes_of_sextets(s) + completed_by(s, x));
    } else if s.len() == 1 {
        assert(t[0] == s[0] && t[1] == x && s.last() == s[0]);
        assert(bytes_of_sextets(s) =~= Seq::<u8>::empty());
        assert(bytes_of_sextets(t) =~= bytes_of_sextets(s) + completed_by(s, x));
    } else if s.len() == 2 {
        assert(t[0] == s[0] && t[1] == s[1] && t[2] == x && s.last() == s[1]);
        assert(bytes_of_sextets(t) =~= bytes_of_sextets(s) + completed_by(s, x));
    } else {
        assert(t[0] == s[0] && t[1] == s[1] && t[2] == s[2] && t[3] == x && s.last() == s[2]);
        assert(t.skip(4) =~= Seq::<u8>::empty());
        assert(bytes_of_sextets(t.skip(4)) =~= Seq::<u8>::empty());
        assert(bytes_of_sextets(t) =~= bytes_of_sextets(s) + completed_by(s, x));
    }
}

/// The pending bits the decoder holds after `seen` sextets.
spec fn decoder_state(seen: Seq<u8>, buf: u32, bits: u32) -> bool {
    let k = seen.len() % 4;
    &&& k == 0 ==> bits == 0
    &&& k == 1 ==> bits == 6 && buf & 63 == seen.last() as u32
    &&& k == 2 ==> bits == 4 && buf & 15 == (seen.last() % 16) as u32
    &&& k == 3 ==> bits == 2 && buf & 3 == (seen.last() % 4) as u32
}

proof fn lemma_before_padding_take(s: Seq<char>, i: int)
    requires
        0 <= i <= s.len(),
        forall|j: int| 0 <= j < i ==> s[j] != '=',
        i == s.len() || s[i] == '=',
    ensures
        before_padding(s) == s.take(i),
    decreases i,
{
    if i == 0 {
        assert(s.take(0) =~= Seq::<char>::empty());
    } else {
        assert forall|j: int| 0 <= j < i - 1 implies s.drop_first()[j] != '=' by {
            assert(s.drop_first()[j] == s[j + 1]);
        }
        lemma_before_padding_take(s.drop_first(), i - 1);
        assert(s.take(i) =~= seq![s[0]] + s.drop_first().take(i - 1));
    }
}

/// One step of the decoder: shift in `val`, and hand out a byte when
/// eight bits are ready.
fn decoder_step(Ghost(seen): Ghost<Seq<u8>>, buf: u32, bits: u32, val: u8) -> (r: (
    u32,
    u32,
    Option<u8>,
))
    requires
        decoder_state(seen, buf, bits),
        val < 64,
    ensures
        decoder_state(seen.push(val), r.0, r.1),
        match r.2 {
            Some(b) => completed_by(seen, val) == seq![b],
            None => completed_by(seen, val) == Seq::<u8>::empty(),
        },
{
    let nb: u32 = (buf << 6u32) | (val as u32);
    let vv = val as u32;
    let ghost t = seen.push(val);
    assert(t.len() % 4 == (seen.len() % 4 + 1) % 4);
    assert(t.last() == val);
    if bits == 0 {
        assert(vv < 64 ==> ((buf << 6u32) | vv) & 63 == vv) by (bit_vector);
        (nb, 6, None)
    } else if bits == 6 {
        assert(vv < 64 ==> (((buf << 6u32) | vv) >> 4u32) as u8 == ((buf & 63) * 4 + vv / 16) as u8)
            by (bit_vector);
        assert(vv < 64 ==> ((buf << 6u32) | vv) & 15 == vv % 16) by (bit_vector);
        (nb, 4, Some((nb >> 4u32) as u8))
    } else if bits == 4 {
        assert(vv < 64 ==> (((buf << 6u32) | vv) >> 2u32) as u8 == ((buf & 15) * 16 + vv / 4) as u8)
            by (bit_vector);
        assert(vv < 64 ==> ((buf << 6u32) | vv) & 3 == vv % 4) by (bit_vector);
        (nb, 2, Some((nb >> 2u32) as u8))
    } else {
        assert(vv < 64 ==> ((buf << 6u32) | vv) as u8 == ((buf & 3) * 64 + vv) as u8) by (bit_vector);
        (nb, 0, Some(nb as u8))
    }
}

/// The bytes spelled by the text `data`, read as the OPFS commands read
/// it: up to the first `=`, skipping characters outside the standard
/// alphabet, dropping incomplete trailing bits.
pub fn base64_decode(data: &str) -> (r: Vec<u8>)
    ensures
        r@ == lenient_decode_spec(data@),
{
    let v = crate::text::chars_of(data);
    let n = v.len();
    let mut result: Vec<u8> = Vec::new();
    let mut buf: u32 = 0;
    let mut bits: u32 = 0;
    let mut i: usize = 0;
    let ghost mut seen: Seq<u8> = Seq::empty();
    assert(v@.take(0) == Seq::<char>::empty());
    while i < n
        invariant
            i <= n,
            n == v@.len(),
            v@ == data@,
            forall|j: int| 0 <= j < i ==> v@[j] != '=',
            seen == sextets_of(v@.take(i as int)),
            forall|j: int| 0 <= j < seen.len() ==> seen[j] < 64,
            decoder_state(seen, buf, bits),
            result@ == bytes_of_sextets(seen),
        decreases n - i,
    {
        let c = v[i];
        if c == '=' {
            proof {
                lemma_before_padding_take(v@, i as int);
            }
            return result;
        }
        proof {
            assert(v@.take(i + 1).drop_last() == v@.take(i as int));
            assert(v@.take(i + 1).last() == c);
        }
        match sextet_of_char(c) {
            Some(val) => {
                let ghost old_seen = seen;
                let ghost old_buf = buf;
                proof {
                    lemma_bytes_push(old_seen, val);
                    seen = seen.push(val);
                }
                let (nb, nbits, out) = decoder_step(Ghost(old_seen), buf, bits, val);
                buf = nb;
                bits = nbits;
                match out {
                    Some(byte) => {
                        result.push(byte);
                    },
                    None => {},
                }
                assert(seen.last() == val);
            },
            None => {},
        }
        i = i + 1;
    }
    proof {
        assert(v@.take(n as int) == v@);
        lemma_before_padding_take(v@, n as int);
    }
    result
}


/// The 6-bit groups that the encoder writes for `data`, before padding.
pub open spec fn sextet_groups(data: Seq<u8>) -> Seq<u8>
    decreases data.len(),
{
    if data.len() == 0 {
        Seq::empty()
    } else {
        let b0 = data[0] as int;
        let b1 = if data.len() > 1 { data[1] as int } else { 0 };
        let b2 = if data.len() > 2 { data[2] as int } else { 0 };
        let g0 = (b0 / 4) as u8;
        let g1 = ((b0 % 4) * 16 + b1 / 16) as u8;
        let g2 = ((b1 % 16) * 4 + b2 / 64) as u8;
        let g3 = (b2 % 64) as u8;
        if data.len() == 1 {
            seq![g0, g1]
        } else if data.len() == 2 {
            seq![g0, g1, g2]
        } else {
            seq![g0, g1, g2, g3] + sextet_groups(data.skip(3))
        }
    }
}

/// The `=` characters that pad the encoding of `n` bytes.
pub open spec fn padding_of(n: nat) -> Seq<char> {
    if n % 3 == 1 {
        seq!['=', '=']
    } else if n % 3 == 2 {
        seq!['=']
    } else {
        Seq::empty()
    }
}

spec fn std_char(v: u8) -> char {
    sextet_char(v as int, false)
}

proof fn lemma_encode_shape(data: Seq<u8>)
    ensures
        encode_spec(data, false, true) == sextet_groups(data).map_values(|v: u8| std_char(v))
            + padding_of(data.len()),
        forall|j: int| 0 <= j < sextet_groups(data).len() ==> sextet_groups(data)[j] < 64,
    decreases data.len(),
{
    let g = sextet_groups(data);
    if data.len() == 0 {
        assert(g.map_values(|v: u8| std_char(v)) + padding_of(0) =~= Seq::<char>::empty());
    } else if data.len() <= 3 {
        if data.len() == 3 {
            assert(data.skip(3) =~= Seq::<u8>::empty());
            assert(sextet_groups(data.skip(3)) =~= Seq::<u8>::empty());
        }
        assert(encode_spec(data, false, true) =~= g.map_values(|v: u8| std_char(v)) + padding_of(
            data.len(),
        ));
    } else {
        let rest = data.skip(3);
        lemma_encode_shape(rest);
        let c = data.take(3);
        assert(c[0] == data[0] && c[1] == data[1] && c[2] == data[2]);
        let gr = sextet_groups(rest);
        assert(g == seq![g[0], g[1], g[2], g[3]] + gr);
        assert(padding_of(data.len()) == padding_of(rest.len()));
        assert(g.map_values(|v: u8| std_char(v)) =~= seq![
            std_char(g[0]),
            std_char(g[1]),
            std_char(g[2]),
            std_char(g[3]),
        ] + gr.map_values(|v: u8| std_char(v)));
        assert(chunk_spec(c, false, true) =~= seq![
            std_char(g[0]),
            std_char(g[1]),
            std_char(g[2]),
            std_char(g[3]),
        ]);
        assert(encode_spec(data, false, true) =~= g.map_values(|v: u8| std_char(v)) + padding_of(
            data.len(),
        ));
        assert forall|j: int| 0 <= j < g.len() implies g[j] < 64 by {
            if j >= 4 {
                assert(g[j] == gr[j - 4]);
            }
        }
    }
}

proof fn lemma_before_padding_append(a: Seq<char>, b: Seq<char>)
    requires
        forall|j: int| 0 <= j < a.len() ==> a[j] != '=',
        b.len() == 0 || b[0] == '=',
    ensures
        before_padding(a + b) == a,
    decreases a.len(),
{
    if a.len() == 0 {
        assert(a + b =~= b);
    } else {
        assert((a + b).drop_first() =~= a.drop_first() + b);
        assert forall|j: int| 0 <= j < a.drop_first().len() implies a.drop_first()[j] != '=' by {
            assert(a.drop_first()[j] == a[j + 1]);
        }
        lemma_before_padding_append(a.drop_first(), b);
        assert(a =~= seq![a[0]] + a.drop_first());
    }
}

proof fn lemma_sextets_of_map(vals: Seq<u8>)
    requires
        forall|j: int| 0 <= j < vals.len() ==> vals[j] < 64,
    ensures
        sextets_of(vals.map_values(|v: u8| std_char(v))) == vals,
    decreases vals.len(),
{
    let m = vals.map_values(|v: u8| std_char(v));
    if vals.len() > 0 {
        let p = vals.drop_last();
        assert(m.drop_last() =~= p.map_values(|v: u8| std_char(v)));
        lemma_sextets_of_map(p);
        let x = vals.last();
        assert(m.last() == std_char(x));
        assert(x < 64);
        assert(sextet_value(std_char(x)) == Some(x));
        assert(vals =~= p.push(x));
    } else {
        assert(m =~= Seq::<char>::empty());
    }
}

proof fn lemma_chunk_arith(b0: u8, b1: u8, b2: u8)
    ensures
        ((b0 / 4) as int * 4 + ((b0 % 4) * 16 + b1 / 16) as int / 16) as u8 == b0,
        ((((b0 % 4) * 16 + b1 / 16) as int % 16) * 16 + ((b1 % 16) * 4 + b2 / 64) as int / 4) as u8
            == b1,
        ((((b1 % 16) * 4 + b2 / 64) as int % 4) * 64 + (b2 % 64) as int) as u8 == b2,
{
    assert(((b0 / 4) * 4 + ((b0 % 4) * 16 + b1 / 16) / 16) == b0) by (bit_vector);
    assert((((b0 % 4) * 16 + b1 / 16) % 16) * 16 + ((b1 % 16) * 4 + b2 / 64) / 4 == b1 as u32)
        by (bit_vector);
    assert((((b1 % 16) * 4 + b2 / 64) % 4) * 64 + (b2 % 64) == b2 as u32) by (bit_vector);
}

proof fn lemma_bytes_of_groups(data: Seq<u8>)
    ensures
        bytes_of_sextets(sextet_groups(data)) == data,
    decreases data.len(),
{
    let g = sextet_groups(data);
    if data.len() == 0 {
        assert(bytes_of_sextets(g) =~= data);
    } else {
        let b0 = data[0];
        let b1: u8 = if data.len() > 1 { data[1] } else { 0 };
        let b2: u8 = if data.len() > 2 { data[2] } else { 0 };
        lemma_chunk_arith(b0, b1, b2);
        if data.len() == 1 {
            assert(bytes_of_sextets(g) =~= data);
        } else if data.len() == 2 {
            assert(bytes_of_sextets(g) =~= data);
        } else {
            lemma_bytes_of_groups(data.skip(3));
            assert(g.skip(4) =~= sextet_groups(data.skip(3)));
            assert(data =~= seq![b0, b1, b2] + data.skip(3));
            assert(bytes_of_sextets(g) =~= data);
        }
    }
}

/// Decoding what the encoder wrote gives back the bytes: for
/// every byte sequence `data`, the lenient decoder applied to the padded
/// standard encoding of `data` yields `data`.
pub proof fn lemma_decode_encode_roundtrip(data: Seq<u8>)
    ensures
        lenient_decode_spec(encode_spec(data, false, true)) == data,
{
    lemma_encode_shape(data);
    let g = sextet_groups(data);
    let m = g.map_values(|v: u8| std_char(v));
    assert forall|j: int| 0 <= j < m.len() implies m[j] != '=' by {
        assert(g[j] < 64);
    }
    lemma_before_padding_append(m, padding_of(data.len()));
    lemma_sextets_of_map(g);
    lemma_bytes_of_groups(data);
}


/// The standard character for a character of either alphabet: `-` and `_`
/// stand for `+` and `/`.
spec fn standard_of(c: char) -> char {
    if c == '-' {
        '+'
    } else if c == '_' {
        '/'
    } else {
        c
    }
}

proof fn lemma_unpadded_shape(data: Seq<u8>, url_safe: bool)
    ensures
        encode_spec(data, url_safe, false) == sextet_groups(data).map_values(
            |v: u8| sextet_char(v as int, url_safe),
        ),
    decreases data.len(),
{
    let g = sextet_groups(data);
    let f = |v: u8| sextet_char(v as int, url_safe);
    if data.len() == 0 {
        assert(g.map_values(f) =~= Seq::<char>::empty());
    } else if data.len() <= 3 {
        if data.len() == 3 {
            assert(data.skip(3) =~= Seq::<u8>::empty());
            assert(sextet_groups(data.skip(3)) =~= Seq::<u8>::empty());
        }
        assert(encode_spec(data, url_safe, false) =~= g.map_values(f));
    } else {
        let rest = data.skip(3);
        lemma_unpadded_shape(rest, url_safe);
        let c = data.take(3);
        assert(c[0] == data[0] && c[1] == data[1] && c[2] == data[2]);
        let gr = sextet_groups(rest);
        assert(g == seq![g[0], g[1], g[2], g[3]] + gr);
        assert(g.map_values(f) =~= seq![f(g[0]), f(g[1]), f(g[2]), f(g[3])] + gr.map_values(f));
        assert(chunk_spec(c, url_safe, false) =~= seq![f(g[0]), f(g[1]), f(g[2]), f(g[3])]);
        assert(encode_spec(data, url_safe, false) =~= g.map_values(f));
    }
}

/// Different bytes have different unpadded encodings in either alphabet.
pub proof fn lemma_unpadded_encode_injective(a: Seq<u8>, b: Seq<u8>, url_safe: bool)
    requires
        encode_spec(a, url_safe, false) == encode_spec(b, url_safe, false),
    ensures
        a == b,
{
    lemma_unpadded_shape(a, url_safe);
    lemma_unpadded_shape(b, url_safe);
    lemma_encode_shape(a);
    lemma_encode_shape(b);
    let ga = sextet_groups(a);
    let gb = sextet_groups(b);
    let f = |v: u8| sextet_char(v as int, url_safe);
    assert(ga.map_values(f).len() == gb.map_values(f).len());
    assert forall|j: int| 0 <= j < ga.len() implies ga[j] == gb[j] by {
        assert(ga.map_values(f)[j] == gb.map_values(f)[j]);
        assert(ga[j] < 64 && gb[j] < 64);
        assert(sextet_value(standard_of(f(ga[j]))) == Some(ga[j]));
        assert(sextet_value(standard_of(f(gb[j]))) == Some(gb[j]));
    }
    assert(ga =~= gb);
    lemma_bytes_of_groups(a);
    lemma_bytes_of_groups(b);
}

/// A character of the URL-safe alphabet: an ASCII letter or digit, `-` or
/// `_`.
pub open spec fn url_safe_char(c: char) -> bool {
    let u = c as u32;
    (65 <= u <= 90) || (97 <= u <= 122) || (48 <= u <= 57) || c == '-' || c == '_'
}

/// The unpadded URL-safe encoding holds only URL-safe characters.
pub proof fn lemma_url_safe_chars(data: Seq<u8>, j: int)
    requires
        0 <= j < encode_spec(data, true, false).len(),
    ensures
        url_safe_char(encode_spec(data, true, false)[j]),
{
    lemma_unpadded_shape(data, true);
    lemma_encode_shape(data);
    let g = sextet_groups(data);
    assert(g[j] < 64);
    assert(encode_spec(data, true, false)[j] == sextet_char(g[j] as int, true));
}

/// The unpadded URL-safe encoding never holds `/`.
pub proof fn lemma_url_safe_no_slash(data: Seq<u8>, j: int)
    requires
        0 <= j < encode_spec(data, true, false).len(),
    ensures
        encode_spec(data, true, false)[j] != '/',
{
    lemma_unpadded_shape(data, true);
    lemma_encode_shape(data);
    let g = sextet_groups(data);
    assert(g[j] < 64);
    assert(encode_spec(data, true, false)[j] == sextet_char(g[j] as int, true));
}

// ------------------------------------------------------- the `base64` crate

/// `base64::DecodeError`, what the crate's decoder reports.
#[verifier::external_type_specification]
#[verifier::external_body]
pub struct ExDecodeError(base64::DecodeError);

/// `base64::engine::general_purpose::STANDARD.encode`: RFC 4648 base64 in
/// the standard alphabet with `=` padding, which is `encode_spec` with the
/// standard alphabet and padding.
#[verifier::external_body]
fn crate_encode_standard(data: &[u8]) -> (r: String)
    ensures
        r@ == encode_spec(data@, false, true),
{
    base64::engine::general_purpose::STANDARD.encode(data)
}

/// `base64::engine::general_purpose::URL_SAFE_NO_PAD.encode`: RFC 4648
/// base64 in the URL-safe alphabet (`-`, `_`) without padding.
#[verifier::external_body]
fn crate_encode_url_safe_no_pad(data: &[u8]) -> (r: String)
    ensures
        r@ == encode_spec(data@, true, false),
{
    base64::engine::general_purpose::URL_SAFE_NO_PAD.encode(data)
}

/// `base64::engine::general_purpose::STANDARD.decode`. That engine
/// requires canonical padding and rejects nonzero trailing bits, so it
/// accepts exactly the texts that its encoder writes: a decoded value
/// encodes back to the input, and the encoding of any bytes decodes to
/// them. Which error comes back for a refused input is not stated.
#[verifier::external_body]
fn crate_decode_standard(s: &str) -> (r: Result<Vec<u8>, base64::DecodeError>)
    ensures
        r matches Ok(v) ==> encode_spec(v@, false, true) == s@,
        r is Err ==> forall|d: Seq<u8>| #[trigger] encode_spec(d, false, true) != s@,
{
    base64::engine::general_purpose::STANDARD.decode(s)
}

/// The standard padded base64 text of `data`, as the crate's standard
/// engine writes it.
pub fn standard_encode(data: &[u8]) -> (r: String)
    ensures
        r@ == encode_spec(data@, false, true),
{
    crate_encode_standard(data)
}

/// `base64::DecodeError` as text (its `Display`); what the text says is
/// not stated.
#[verifier::external_body]
fn decode_error_text(e: &base64::DecodeError) -> String {
    e.to_string()
}

/// The bytes whose standard padded base64 text is `s`; an error, with the
/// crate's description, when `s` is no such text.
pub fn standard_decode(s: &str) -> (r: Result<Vec<u8>, String>)
    ensures
        r matches Ok(v) ==> encode_spec(v@, false, true) == s@ && v@ == lenient_decode_spec(s@),
        (exists|d: Seq<u8>| #[trigger] encode_spec(d, false, true) == s@) <==> r is Ok,
{
    match crate_decode_standard(s) {
        Ok(v) => {
            proof {
                lemma_decode_encode_roundtrip(v@);
            }
            Ok(v)
        },
        Err(e) => {
            assert(forall|d: Seq<u8>| #[trigger] encode_spec(d, false, true) != s@);
            Err(decode_error_text(&e))
        },
    }
}

/// The URL-safe unpadded base64 text of `data`.
pub fn url_safe_encode(data: &[u8]) -> (r: String)
    ensures
        r@ == encode_spec(data@, true, false),
{
    crate_encode_url_safe_no_pad(data)
}

} // verus!
