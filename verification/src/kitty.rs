//! Kitty graphics protocol encoder: PNG bytes become a terminal escape
//! sequence carrying the image as base64, split into bounded chunks.
use vstd::prelude::*;
use crate::text::{dec, push_char, push_dec, push_str};

verus! {

/// The symbol for a six-bit value in the standard base64 alphabet.
pub open spec fn b64_symbol(v: nat) -> char {
    if v < 26 {
        (('A' as u32) + v) as char
    } else if v < 52 {
        (('a' as u32) + (v - 26)) as char
    } else if v < 62 {
        (('0' as u32) + (v - 52)) as char
    } else if v == 62 {
        '+'
    } else {
        '/'
    }
}

/// Base64 of one group of one to three bytes (missing bytes read as zero,
/// missing symbols padded with `=`).
pub open spec fn b64_group(g: Seq<u8>) -> Seq<char> {
    let b0 = g[0] as nat;
    let b1 = if g.len() > 1 { g[1] as nat } else { 0 };
    let b2 = if g.len() > 2 { g[2] as nat } else { 0 };
    let n = b0 * 65536 + b1 * 256 + b2;
    seq![
        b64_symbol((n / 262144) % 64),
        b64_symbol((n / 4096) % 64),
        if g.len() > 1 { b64_symbol((n / 64) % 64) } else { '=' },
        if g.len() > 2 { b64_symbol(n % 64) } else { '=' },
    ]
}

/// Standard padded base64 of a byte sequence, three bytes at a time.
pub open spec fn base64(d: Seq<u8>) -> Seq<char>
    decreases d.len(),
{
    if d.len() == 0 {
        seq![]
    } else if d.len() <= 3 {
        b64_group(d)
    } else {
        b64_group(d.take(3)) + base64(d.skip(3))
    }
}

/// Number of base64 symbols for `n` bytes: four per started group of three.
pub open spec fn base64_len(n: nat) -> nat {
    4 * ((n + 2) / 3)
}

fn symbol(v: u32) -> (c: char)
    requires
        v < 64,
    ensures
        c == b64_symbol(v as nat),
{
    if v < 26 {
        ((65 + v) as u8) as char
    } else if v < 52 {
        ((97 + (v - 26)) as u8) as char
    } else if v < 62 {
        ((48 + (v - 52)) as u8) as char
    } else if v == 62 {
        '+'
    } else {
        '/'
    }
}

/// Standard padded base64.
pub fn base64_encode(data: &[u8]) -> (out: String)
    ensures
        out@ == base64(data@),
{
    let mut out = String::new();
    let len = data.len();
    let mut i: usize = 0;
    assert(data@.skip(0) =~= data@);
    assert(out@ + base64(data@) =~= base64(data@));
    while i < len
        invariant
            len == data@.len(),
            i <= len,
            out@ + base64(data@.skip(i as int)) == base64(data@),
        decreases len - i,
    {
        let rest = len - i;
        let b0 = data[i] as u32;
        let b1 = if rest > 1 { data[i + 1] as u32 } else { 0 };
        let b2 = if rest > 2 { data[i + 2] as u32 } else { 0 };
        let n = b0 * 65536 + b1 * 256 + b2;
        let ghost old_out = out@;
        let ghost tail = data@.skip(i as int);
        push_char(&mut out, symbol((n / 262144) % 64));
        push_char(&mut out, symbol((n / 4096) % 64));
        push_char(&mut out, if rest > 1 { symbol((n / 64) % 64) } else { '=' });
        push_char(&mut out, if rest > 2 { symbol(n % 64) } else { '=' });
        let step = if rest > 3 { 3 } else { rest };
        proof {
            let g = if rest > 3 { tail.take(3) } else { tail };
            assert(g[0] == data@[i as int]);
            assert(rest > 1 ==> g[1] == data@[i + 1]);
            assert(rest > 2 ==> g[2] == data@[i + 2]);
            assert(out@ =~= old_out + b64_group(g));
            if rest > 3 {
                assert(tail.skip(3) =~= data@.skip(i + 3));
                assert(base64(tail) == b64_group(g) + base64(tail.skip(3)));
            } else {
                assert(data@.skip(i + rest) =~= Seq::<u8>::empty());
            }
        }
        i = i + step;
    }
    assert(data@.skip(len as int) =~= Seq::<u8>::empty());
    out
}

/// The base64 text has four symbols per started group of three bytes.
pub proof fn lemma_base64_len(d: Seq<u8>)
    ensures
        base64(d).len() == base64_len(d.len()),
    decreases d.len(),
{
    if d.len() > 3 {
        lemma_base64_len(d.skip(3));
    }
}

/// Largest payload a single kitty escape sequence may carry.
pub open spec fn chunk_limit() -> nat {
    4096
}

/// Opening of a chunk: the first carries the transmit-and-display command with
/// the display size in cells, later ones only the continuation flag `m`.
pub open spec fn kitty_opening(first: bool, more: bool, cols: u32, rows: u32) -> Seq<char> {
    let m: Seq<char> = if more { "1"@ } else { "0"@ };
    if first {
        "\x1b_Ga=T,f=100,i=1,c="@ + dec(cols as nat) + ",r="@ + dec(rows as nat) + ",q=2,m="@ + m + ";"@
    } else {
        "\x1b_Gm="@ + m + ";"@
    }
}

/// Escape-sequence chunks for the remaining base64 payload `b`.
pub open spec fn kitty_chunks(b: Seq<char>, first: bool, cols: u32, rows: u32) -> Seq<char>
    decreases b.len(),
{
    if b.len() == 0 {
        seq![]
    } else {
        let end = if b.len() < chunk_limit() { b.len() } else { chunk_limit() };
        kitty_opening(first, end < b.len(), cols, rows) + b.take(end as int) + "\x1b\\"@
            + kitty_chunks(b.skip(end as int), false, cols, rows)
    }
}

/// The complete kitty escape text for a PNG shown in `cols` x `rows` cells.
pub open spec fn kitty_text(png: Seq<u8>, cols: u32, rows: u32) -> Seq<char> {
    kitty_chunks(base64(png), true, cols, rows)
}

/// Kitty escape sequence that transmits and displays `png` in `cols` x `rows`
/// terminal cells (image id 1, so a later image replaces it in place).
pub fn kitty_png(png: &[u8], cols: u32, rows: u32) -> (out: String)
    ensures
        out@ == kitty_text(png@, cols, rows),
{
    let b64 = base64_encode(png);
    let chars = crate::text::chars_of(b64.as_str());
    let len = chars.len();
    let mut out = String::new();
    let mut i: usize = 0;
    assert(chars@.skip(0) =~= chars@);
    assert(out@ + kitty_text(png@, cols, rows) =~= kitty_text(png@, cols, rows));
    while i < len
        invariant
            len == chars@.len(),
            chars@ == base64(png@),
            i <= len,
            out@ + kitty_chunks(chars@.skip(i as int), i == 0, cols, rows) == kitty_text(png@, cols, rows),
        decreases len - i,
    {
        let end = if len - i < 4096 { len } else { i + 4096 };
        let ghost old_out = out@;
        let ghost rest = chars@.skip(i as int);
        push_chunk(&mut out, &chars, i, end, cols, rows);
        proof {
            assert(rest.take((end - i) as int) =~= chars@.subrange(i as int, end as int));
            assert(rest.skip((end - i) as int) =~= chars@.skip(end as int));
            let tail = kitty_chunks(chars@.skip(end as int), false, cols, rows);
            assert(kitty_chunks(rest, i == 0, cols, rows) == kitty_opening(i == 0, end < len, cols, rows)
                + rest.take((end - i) as int) + "\x1b\\"@ + tail);
            assert(old_out + kitty_chunks(rest, i == 0, cols, rows) =~= out@ + tail);
        }
        i = end;
    }
    assert(chars@.skip(len as int) =~= Seq::<char>::empty());
    assert(out@ =~= out@ + kitty_chunks(chars@.skip(len as int), len == 0, cols, rows));
    out
}

/// Appends one escape-sequence chunk carrying `chars[i..end]`.
fn push_chunk(out: &mut String, chars: &Vec<char>, i: usize, end: usize, cols: u32, rows: u32)
    requires
        i < end <= chars@.len(),
    ensures
        final(out)@ == old(out)@ + kitty_opening(i == 0, end < chars@.len(), cols, rows)
            + chars@.subrange(i as int, end as int) + "\x1b\\"@,
{
    let more = end < chars.len();
    if i == 0 {
        push_str(out, "\x1b_Ga=T,f=100,i=1,c=");
        push_dec(out, cols as u64);
        push_str(out, ",r=");
        push_dec(out, rows as u64);
        push_str(out, ",q=2,m=");
    } else {
        push_str(out, "\x1b_Gm=");
    }
    push_str(out, if more { "1" } else { "0" });
    push_str(out, ";");
    let ghost opened = out@;
    assert(opened =~= old(out)@ + kitty_opening(i == 0, more, cols, rows));
    let mut j = i;
    while j < end
        invariant
            i <= j <= end <= chars@.len(),
            out@ == opened + chars@.subrange(i as int, j as int),
        decreases end - j,
    {
        push_char(out, chars[j]);
        assert(chars@.subrange(i as int, j + 1) =~= chars@.subrange(i as int, j as int).push(chars@[j as int]));
        j = j + 1;
    }
    push_str(out, "\x1b\\");
    assert(out@ =~= old(out)@ + kitty_opening(i == 0, more, cols, rows)
        + chars@.subrange(i as int, end as int) + "\x1b\\"@);
}

/// A character of the base64 alphabet: `A`-`Z`, `a`-`z`, `0`-`9`, `+`, `/`.
pub open spec fn b64_alphabet(c: char) -> bool {
    ('A' <= c <= 'Z') || ('a' <= c <= 'z') || ('0' <= c <= '9') || c == '+' || c == '/'
}

proof fn lemma_symbol_in_alphabet(v: nat)
    requires
        v < 64,
    ensures
        b64_alphabet(b64_symbol(v)),
        b64_symbol(v) != '=',
{
}

/// Padding symbols at the end of base64 for `n` bytes.
pub open spec fn b64_padding(n: nat) -> nat {
    ((3 - n % 3) % 3) as nat
}

/// Base64 text uses only the alphabet, followed by exactly the padding
/// needed to complete the last group of three bytes.
#[verifier::spinoff_prover]
#[verifier::rlimit(40)]
pub proof fn lemma_base64_shape(d: Seq<u8>)
    ensures
        forall|i: int| 0 <= i < base64(d).len() - b64_padding(d.len()) ==> b64_alphabet(#[trigger] base64(d)[i]),
        forall|i: int| base64(d).len() - b64_padding(d.len()) <= i < base64(d).len() ==> #[trigger] base64(d)[i] == '=',
    decreases d.len(),
{
    lemma_base64_len(d);
    if d.len() == 0 {
    } else if d.len() <= 3 {
        let g = b64_group(d);
        let n = (d[0] as nat) * 65536 + (if d.len() > 1 { d[1] as nat } else { 0 }) * 256 + (if d.len() > 2 { d[2] as nat } else { 0 });
        lemma_symbol_in_alphabet((n / 262144) % 64);
        lemma_symbol_in_alphabet((n / 4096) % 64);
        lemma_symbol_in_alphabet((n / 64) % 64);
        lemma_symbol_in_alphabet(n % 64);
    } else {
        lemma_base64_shape(d.skip(3));
        lemma_base64_len(d.skip(3));
        let a = b64_group(d.take(3));
        let b = base64(d.skip(3));
        let t = d.take(3);
        let n = (t[0] as nat) * 65536 + (t[1] as nat) * 256 + (t[2] as nat);
        lemma_symbol_in_alphabet((n / 262144) % 64);
        lemma_symbol_in_alphabet((n / 4096) % 64);
        lemma_symbol_in_alphabet((n / 64) % 64);
        lemma_symbol_in_alphabet(n % 64);
        assert(b64_padding(d.len()) == b64_padding(d.skip(3).len()));
        assert forall|i: int| 0 <= i < base64(d).len() - b64_padding(d.len()) implies b64_alphabet(#[trigger] base64(d)[i]) by {
            if i >= 4 {
                assert(base64(d)[i] == b[i - 4]);
            }
        }
        assert forall|i: int| base64(d).len() - b64_padding(d.len()) <= i < base64(d).len() implies #[trigger] base64(d)[i] == '=' by {
            assert(base64(d)[i] == b[i - 4]);
        }
    }
}

/// The six-bit value of a base64 symbol (`=` and others read as 0).
pub open spec fn b64_value(c: char) -> nat {
    if 'A' <= c <= 'Z' {
        ((c as u32) - 65) as nat
    } else if 'a' <= c <= 'z' {
        ((c as u32) - 71) as nat
    } else if '0' <= c <= '9' {
        ((c as u32) + 4) as nat
    } else if c == '+' {
        62
    } else if c == '/' {
        63
    } else {
        0
    }
}

/// The bytes of one group of four symbols; `=` in the last two places
/// means the group carries fewer bytes.
pub open spec fn b64_decode_group(q: Seq<char>) -> Seq<u8> {
    let n = b64_value(q[0]) * 262144 + b64_value(q[1]) * 4096 + b64_value(q[2]) * 64 + b64_value(q[3]);
    seq![((n / 65536) % 256) as u8]
        + (if q[2] != '=' { seq![((n / 256) % 256) as u8] } else { seq![] })
        + (if q[3] != '=' { seq![(n % 256) as u8] } else { seq![] })
}

/// RFC 4648 decoding of padded base64 text, four symbols at a time.
pub open spec fn base64_decode(r: Seq<char>) -> Seq<u8>
    decreases r.len(),
{
    if r.len() < 4 {
        seq![]
    } else {
        b64_decode_group(r.take(4)) + base64_decode(r.skip(4))
    }
}

proof fn lemma_value_of_symbol(v: nat)
    requires
        v < 64,
    ensures
        b64_value(b64_symbol(v)) == v,
{
}

proof fn lemma_group_arith(b0: u32, b1: u32, b2: u32)
    requires
        b0 < 256,
        b1 < 256,
        b2 < 256,
    ensures
        ({
            let n = b0 * 65536 + b1 * 256 + b2;
            &&& (n / 262144) % 64 * 262144 + (n / 4096) % 64 * 4096 + (n / 64) % 64 * 64 + n % 64 == n
            &&& (n / 65536) % 256 == b0
            &&& (n / 256) % 256 == b1
            &&& n % 256 == b2
        }),
{
    assert({
        let n = b0 * 65536 + b1 * 256 + b2;
        &&& (n / 262144) % 64 * 262144 + (n / 4096) % 64 * 4096 + (n / 64) % 64 * 64 + n % 64 == n
        &&& (n / 65536) % 256 == b0
        &&& (n / 256) % 256 == b1
        &&& n % 256 == b2
    }) by (bit_vector)
        requires
            b0 < 256,
            b1 < 256,
            b2 < 256;
}

proof fn lemma_padded_low(b0: u32, b1: u32)
    requires
        b0 < 256,
        b1 < 256,
    ensures
        (b0 * 65536 + b1 * 256) % 64 == 0,
        b1 == 0 ==> ((b0 * 65536) / 64) % 64 == 0,
{
    assert((b0 * 65536 + b1 * 256) % 64 == 0 && (b1 == 0 ==> ((b0 * 65536) / 64) % 64 == 0)) by (bit_vector)
        requires
            b0 < 256,
            b1 < 256;
}

proof fn lemma_decode_group(g: Seq<u8>)
    requires
        1 <= g.len() <= 3,
    ensures
        b64_decode_group(b64_group(g)) == g,
{
    let b0 = g[0] as u32;
    let b1: u32 = if g.len() > 1 { g[1] as u32 } else { 0 };
    let b2: u32 = if g.len() > 2 { g[2] as u32 } else { 0 };
    let n: nat = (b0 * 65536 + b1 * 256 + b2) as nat;
    lemma_group_arith(b0, b1, b2);
    lemma_padded_low(b0, b1);
    let q = b64_group(g);
    lemma_value_of_symbol((n / 262144) % 64);
    lemma_value_of_symbol((n / 4096) % 64);
    lemma_value_of_symbol((n / 64) % 64);
    lemma_value_of_symbol(n % 64);
    lemma_symbol_in_alphabet((n / 64) % 64);
    lemma_symbol_in_alphabet(n % 64);
    let m = b64_value(q[0]) * 262144 + b64_value(q[1]) * 4096 + b64_value(q[2]) * 64 + b64_value(q[3]);
    assert(m == n);
    assert(b64_decode_group(q) =~= g);
}

/// Decoding base64 text gives back the bytes.
pub proof fn lemma_base64_round_trip(d: Seq<u8>)
    ensures
        base64_decode(base64(d)) == d,
    decreases d.len(),
{
    if d.len() == 0 {
    } else if d.len() <= 3 {
        lemma_decode_group(d);
        let q = b64_group(d);
        assert(q.take(4) =~= q);
        assert(q.skip(4) =~= Seq::<char>::empty());
        assert(base64_decode(q.skip(4)) =~= Seq::<u8>::empty());
        assert(base64_decode(q) =~= d);
    } else {
        lemma_decode_group(d.take(3));
        lemma_base64_round_trip(d.skip(3));
        let q = b64_group(d.take(3));
        let r = base64(d);
        assert(r.take(4) =~= q);
        assert(r.skip(4) =~= base64(d.skip(3)));
        assert(d.take(3) + d.skip(3) =~= d);
    }
}

/// The payload cut into consecutive pieces of at most `chunk_limit()`
/// symbols, each as long as possible.
pub open spec fn pieces(b: Seq<char>) -> Seq<Seq<char>>
    decreases b.len(),
{
    if b.len() == 0 {
        seq![]
    } else {
        let end = if b.len() < chunk_limit() { b.len() } else { chunk_limit() };
        seq![b.take(end as int)] + pieces(b.skip(end as int))
    }
}

/// Pieces joined in order.
pub open spec fn joined(ps: Seq<Seq<char>>) -> Seq<char>
    decreases ps.len(),
{
    if ps.len() == 0 { seq![] } else { ps[0] + joined(ps.drop_first()) }
}

/// One escape sequence per piece: the first opens with the display
/// command, every piece but the last announces more to come.
pub open spec fn escapes(ps: Seq<Seq<char>>, first: bool, cols: u32, rows: u32) -> Seq<char>
    decreases ps.len(),
{
    if ps.len() == 0 {
        seq![]
    } else {
        kitty_opening(first, ps.len() > 1, cols, rows) + ps[0] + "\x1b\\"@ + escapes(ps.drop_first(), false, cols, rows)
    }
}

/// Chunk by chunk: the payload is cut into pieces of 1 to 4096 symbols
/// that join back into it, and the escape text is one sequence per piece,
/// with `m=1` on all but the last.
pub proof fn lemma_kitty_chunks(b: Seq<char>, first: bool, cols: u32, rows: u32)
    ensures
        joined(pieces(b)) == b,
        forall|i: int| 0 <= i < pieces(b).len() ==> 1 <= (#[trigger] pieces(b)[i]).len() <= chunk_limit(),
        kitty_chunks(b, first, cols, rows) == escapes(pieces(b), first, cols, rows),
    decreases b.len(),
{
    if b.len() > 0 {
        let end = if b.len() < chunk_limit() { b.len() } else { chunk_limit() };
        let rest = b.skip(end as int);
        lemma_kitty_chunks(rest, false, cols, rows);
        let ps = pieces(b);
        assert(ps.drop_first() =~= pieces(rest));
        assert(ps[0] == b.take(end as int));
        assert(b.take(end as int) + rest =~= b);
        assert forall|i: int| 0 <= i < ps.len() implies 1 <= (#[trigger] ps[i]).len() <= chunk_limit() by {
            if i > 0 {
                assert(ps[i] == pieces(rest)[i - 1]);
            }
        }
        assert((ps.len() > 1) == (end < b.len())) by {
            if end < b.len() {
                assert(pieces(rest).len() > 0);
            } else {
                assert(rest.len() == 0);
            }
        }
    }
}

/// End of piece `i` of a payload of `n` symbols.
pub open spec fn piece_end(i: int, n: int) -> int {
    if 4096 * (i + 1) < n { 4096 * (i + 1) } else { n }
}

/// Piece `i` is the `i`-th 4096-symbol slice of the payload (the last one
/// possibly shorter), and there are `ceil(len / 4096)` of them.
pub proof fn lemma_pieces_indexed(b: Seq<char>)
    ensures
        pieces(b).len() == (b.len() + 4095) / 4096,
        forall|i: int| 0 <= i < pieces(b).len()
            ==> #[trigger] pieces(b)[i] == b.subrange(4096 * i, piece_end(i, b.len() as int)),
    decreases b.len(),
{
    if b.len() > 0 {
        let end: int = if b.len() < 4096 { b.len() as int } else { 4096 };
        let rest = b.skip(end);
        lemma_pieces_indexed(rest);
        let ps = pieces(b);
        assert(ps.drop_first() =~= pieces(rest));
        assert forall|i: int| 0 <= i < ps.len()
            implies #[trigger] ps[i] == b.subrange(4096 * i, piece_end(i, b.len() as int)) by {
            if i == 0 {
                assert(ps[0] =~= b.subrange(0, piece_end(0, b.len() as int)));
            } else {
                assert(ps[i] == pieces(rest)[i - 1]);
                assert(end == 4096);
                assert(piece_end(i - 1, rest.len() as int) + 4096 == piece_end(i, b.len() as int));
                assert(pieces(rest)[i - 1] =~= b.subrange(4096 * i, piece_end(i, b.len() as int)));
            }
        }
    }
}

/// The escape sequence for piece `i` of `n`: opening, payload, terminator.
pub open spec fn escape_for(ps: Seq<Seq<char>>, first: bool, cols: u32, rows: u32, i: int) -> Seq<char> {
    kitty_opening(first && i == 0, i + 1 < ps.len(), cols, rows) + ps[i] + "\x1b\\"@
}

/// The escapes are the per-piece sequences joined in order.
pub proof fn lemma_escapes_indexed(ps: Seq<Seq<char>>, first: bool, cols: u32, rows: u32)
    ensures
        escapes(ps, first, cols, rows)
            == joined(Seq::new(ps.len(), |i: int| escape_for(ps, first, cols, rows, i))),
    decreases ps.len(),
{
    let all = Seq::new(ps.len(), |i: int| escape_for(ps, first, cols, rows, i));
    if ps.len() > 0 {
        let rest = ps.drop_first();
        lemma_escapes_indexed(rest, false, cols, rows);
        let tail = Seq::new(rest.len(), |i: int| escape_for(rest, false, cols, rows, i));
        assert forall|i: int| 0 <= i < tail.len() implies #[trigger] all.drop_first()[i] == tail[i] by {
            assert(rest[i] == ps[i + 1]);
        }
        assert(all.drop_first() =~= tail);
    }
}

/// The kitty text of a PNG indexed chunk by chunk: with `b` its base64 and
/// `k = ceil(|b| / 4096)` chunks, chunk `i` is its opening (the display
/// command on the first, `m=1` on all but the last), the `i`-th 4096-symbol
/// slice of `b`, and the terminator; no chunk at all for an empty PNG.
pub proof fn lemma_kitty_png_indexed(png: Seq<u8>, cols: u32, rows: u32)
    ensures
        ({
            let b = base64(png);
            let k = (b.len() + 4095) / 4096;
            kitty_text(png, cols, rows) == joined(Seq::new(k as nat, |i: int|
                kitty_opening(i == 0, i + 1 < k, cols, rows) + b.subrange(4096 * i, piece_end(i, b.len() as int))
                    + "\x1b\\"@))
        }),
{
    let b = base64(png);
    let k = (b.len() + 4095) / 4096;
    lemma_kitty_chunks(b, true, cols, rows);
    lemma_pieces_indexed(b);
    lemma_escapes_indexed(pieces(b), true, cols, rows);
    let lhs = Seq::new(pieces(b).len(), |i: int| escape_for(pieces(b), true, cols, rows, i));
    let rhs = Seq::new(k as nat, |i: int|
        kitty_opening(i == 0, i + 1 < k, cols, rows) + b.subrange(4096 * i, piece_end(i, b.len() as int)) + "\x1b\\"@);
    assert forall|i: int| 0 <= i < lhs.len() implies #[trigger] lhs[i] == rhs[i] by {
        assert(pieces(b)[i] == b.subrange(4096 * i, piece_end(i, b.len() as int)));
    }
    assert(lhs =~= rhs);
}

} // verus!
