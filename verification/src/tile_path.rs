//! The path of a tile request on the viewer's custom protocol:
//! `tile/<document id>/<page>/<width>`.

use crate::error::{message_spec, ErrorView, RenderError};
use crate::text::{dec_chars, digit_char};
use vstd::prelude::*;
use vstd::string::StrSliceExecFns;
use vstd::utf8::encode_utf8;

verus! {

/// Narrowest tile width that is served.
pub const MIN_TILE_WIDTH: i32 = 50;

/// Widest tile width that is served.
pub const MAX_TILE_WIDTH: i32 = 8000;

/// `s` with every leading '/' removed.
pub open spec fn trim_leading_slashes(s: Seq<char>) -> Seq<char>
    decreases s.len(),
{
    if s.len() > 0 && s[0] == '/' {
        trim_leading_slashes(s.drop_first())
    } else {
        s
    }
}

/// The pieces of `s` between '/' separators, in order; an empty `s` gives
/// one empty piece, and each '/' starts a new piece.
pub open spec fn split_slash(s: Seq<char>) -> Seq<Seq<char>>
    decreases s.len(),
{
    if s.len() == 0 {
        seq![Seq::empty()]
    } else {
        let rest = split_slash(s.drop_first());
        if s[0] == '/' {
            seq![Seq::<char>::empty()] + rest
        } else {
            rest.update(0, seq![s[0]] + rest[0])
        }
    }
}

pub open spec fn is_ascii_digit(c: char) -> bool {
    '0' <= c && c <= '9'
}

pub open spec fn all_digits(s: Seq<char>) -> bool {
    forall|i: int| 0 <= i < s.len() ==> #[trigger] is_ascii_digit(s[i])
}

/// The number written by the decimal digits `s` (most significant first).
pub open spec fn digits_value(s: Seq<char>) -> nat
    decreases s.len(),
{
    if s.len() == 0 {
        0
    } else {
        digits_value(s.drop_last()) * 10 + ((s.last() as int - '0' as int) as nat)
    }
}

/// The magnitude that `s` denotes, if it is one or more decimal digits.
pub open spec fn decimal(s: Seq<char>) -> Option<nat> {
    if s.len() > 0 && all_digits(s) {
        Some(digits_value(s))
    } else {
        None
    }
}

/// What parsing `s` as an unsigned integer no greater than `max` gives, as
/// the standard library's `parse` does it: an optional '+' followed by one or
/// more decimal digits whose value does not exceed `max`.
pub open spec fn parse_unsigned(s: Seq<char>, max: nat) -> Option<nat> {
    let digits = if s.len() > 0 && s[0] == '+' {
        s.drop_first()
    } else {
        s
    };
    match decimal(digits) {
        Some(v) => if v <= max {
            Some(v)
        } else {
            None
        },
        None => None,
    }
}

/// What parsing `s` as an `i32` gives, as the standard library's `parse`
/// does it: an optional '+' or '-' followed by one or more decimal digits,
/// the value within the range of `i32`.
pub open spec fn parse_i32(s: Seq<char>) -> Option<int> {
    if s.len() > 0 && s[0] == '-' {
        match decimal(s.drop_first()) {
            Some(v) => if v <= 0x8000_0000 {
                Some(-v)
            } else {
                None
            },
            None => None,
        }
    } else {
        match parse_unsigned(s, 0x7fff_ffff) {
            Some(v) => Some(v as int),
            None => None,
        }
    }
}

/// The tile that a request path names: after its leading slashes, the path
/// must be `tile`, a document id (`u32`), a page (`u16`) and a width (`i32`)
/// between `MIN_TILE_WIDTH` and `MAX_TILE_WIDTH`, separated by '/'; pieces
/// after the width are ignored.
pub open spec fn tile_path_spec(path: Seq<char>) -> Option<(u32, u16, i32)> {
    let segs = split_slash(trim_leading_slashes(path));
    if segs.len() < 4 || segs[0] != seq!['t', 'i', 'l', 'e'] {
        None
    } else {
        match (
            parse_unsigned(segs[1], 0xffff_ffff),
            parse_unsigned(segs[2], 0xffff),
            parse_i32(segs[3]),
        ) {
            (Some(id), Some(page), Some(width)) => {
                if MIN_TILE_WIDTH <= width <= MAX_TILE_WIDTH {
                    Some((id as u32, page as u16, width as i32))
                } else {
                    None
                }
            },
            _ => None,
        }
    }
}


proof fn lemma_trim(s: Seq<char>, i: int)
    requires
        0 <= i <= s.len(),
        forall|j: int| 0 <= j < i ==> s[j] == '/',
        i == s.len() || s[i] != '/',
    ensures
        trim_leading_slashes(s) == s.skip(i),
    decreases i,
{
    if i == 0 {
        assert(s.skip(0) =~= s);
    } else {
        lemma_trim(s.drop_first(), i - 1);
        assert(s.drop_first().skip(i - 1) =~= s.skip(i));
    }
}

proof fn lemma_split_first(s: Seq<char>, k: int)
    requires
        0 <= k <= s.len(),
        forall|j: int| 0 <= j < k ==> s[j] != '/',
        k == s.len() || s[k] == '/',
    ensures
        split_slash(s).len() >= 1,
        split_slash(s)[0] == s.take(k),
        k == s.len() ==> split_slash(s).len() == 1,
        k < s.len() ==> split_slash(s).drop_first() == split_slash(s.skip(k + 1)),
    decreases k,
{
    if k == 0 {
        if s.len() == 0 {
            assert(s.take(0) =~= Seq::<char>::empty());
        } else {
            let rest = split_slash(s.drop_first());
            assert(s.take(0) =~= Seq::<char>::empty());
            assert((seq![Seq::<char>::empty()] + rest).drop_first() =~= rest);
            assert(s.drop_first() =~= s.skip(1));
        }
    } else {
        let t = s.drop_first();
        lemma_split_first(t, k - 1);
        let rest = split_slash(t);
        assert(seq![s[0]] + t.take(k - 1) =~= s.take(k));
        assert(rest.update(0, seq![s[0]] + rest[0]).drop_first() =~= rest.drop_first());
        if k < s.len() {
            assert(t.skip(k) =~= s.skip(k + 1));
        }
    }
}

proof fn lemma_digits_step(s: Seq<char>, k: int)
    requires
        0 <= k < s.len(),
    ensures
        digits_value(s.take(k + 1)) == digits_value(s.take(k)) * 10 + ((s[k] as int - '0' as int) as nat),
{
    assert(s.take(k + 1).drop_last() =~= s.take(k));
}

proof fn lemma_digits_prefix_le(s: Seq<char>, k: int)
    requires
        0 <= k <= s.len(),
        all_digits(s),
    ensures
        digits_value(s.take(k)) <= digits_value(s),
    decreases s.len(),
{
    if k < s.len() {
        let d = s.drop_last();
        assert(all_digits(d)) by {
            assert forall|i: int| 0 <= i < d.len() implies #[trigger] is_ascii_digit(d[i]) by {
                assert(is_ascii_digit(s[i]));
            }
        }
        lemma_digits_prefix_le(d, k);
        assert(d.take(k) =~= s.take(k));
        assert(s.take(s.len() as int) =~= s);
    } else {
        assert(s.take(k) =~= s);
    }
}

/// The decimal number in `v[a..b]`, if that piece is one or more digits whose
/// value does not exceed `max`.
fn decimal_at(v: &Vec<char>, a: usize, b: usize, max: u64) -> (r: Option<u64>)
    requires
        a <= b <= v@.len(),
        max <= 0xffff_ffff,
    ensures
        r == (match decimal(v@.subrange(a as int, b as int)) {
            Some(x) => if x <= max {
                Some(x as u64)
            } else {
                None
            },
            None => None,
        }),
{
    let ghost sub = v@.subrange(a as int, b as int);
    if a == b {
        return None;
    }
    let mut acc: u64 = 0;
    let mut i: usize = a;
    while i < b
        invariant
            a <= i <= b <= v@.len(),
            sub == v@.subrange(a as int, b as int),
            max <= 0xffff_ffff,
            acc <= max,
            acc == digits_value(sub.take(i - a)),
            forall|j: int| 0 <= j < i - a ==> #[trigger] is_ascii_digit(sub[j]),
        decreases b - i,
    {
        let c = v[i];
        if !('0' <= c && c <= '9') {
            assert(!is_ascii_digit(sub[i - a]));
            return None;
        }
        proof {
            lemma_digits_step(sub, i - a);
            assert(sub.take(i - a + 1) =~= sub.take((i + 1 - a) as int));
        }
        acc = acc * 10 + ((c as u32 - '0' as u32) as u64);
        if acc > max {
            proof {
                if all_digits(sub) {
                    lemma_digits_prefix_le(sub, i + 1 - a);
                }
            }
            return None;
        }
        i += 1;
    }
    assert(sub.take(b - a) =~= sub);
    Some(acc)
}

fn parse_unsigned_at(v: &Vec<char>, a: usize, b: usize, max: u64) -> (r: Option<u64>)
    requires
        a <= b <= v@.len(),
        max <= 0xffff_ffff,
    ensures
        r == (match parse_unsigned(v@.subrange(a as int, b as int), max as nat) {
            Some(x) => Some(x as u64),
            None => None,
        }),
{
    let ghost sub = v@.subrange(a as int, b as int);
    if a < b && v[a] == '+' {
        assert(sub.drop_first() =~= v@.subrange(a + 1, b as int));
        decimal_at(v, a + 1, b, max)
    } else {
        decimal_at(v, a, b, max)
    }
}

fn parse_i32_at(v: &Vec<char>, a: usize, b: usize) -> (r: Option<i32>)
    requires
        a <= b <= v@.len(),
    ensures
        r == (match parse_i32(v@.subrange(a as int, b as int)) {
            Some(x) => Some(x as i32),
            None => None,
        }),
{
    let ghost sub = v@.subrange(a as int, b as int);
    if a < b && v[a] == '-' {
        assert(sub.drop_first() =~= v@.subrange(a + 1, b as int));
        match decimal_at(v, a + 1, b, 0x8000_0000) {
            Some(m) => Some((0 - (m as i64)) as i32),
            None => None,
        }
    } else {
        match parse_unsigned_at(v, a, b, 0x7fff_ffff) {
            Some(m) => Some(m as i32),
            None => None,
        }
    }
}

/// The end of the piece that starts at `from`: the position of the next '/'
/// at or after `from`, or the end of `v`.
fn piece_end(v: &Vec<char>, from: usize) -> (e: usize)
    requires
        from <= v@.len(),
    ensures
        from <= e <= v@.len(),
        forall|j: int| from <= j < e ==> v@[j] != '/',
        e == v@.len() || v@[e as int] == '/',
{
    let mut e = from;
    while e < v.len() && v[e] != '/'
        invariant
            from <= e <= v@.len(),
            forall|j: int| from <= j < e ==> v@[j] != '/',
        decreases v@.len() - e,
    {
        e += 1;
    }
    e
}

proof fn lemma_piece(v: Seq<char>, a: int, e: int)
    requires
        0 <= a <= e <= v.len(),
        forall|j: int| a <= j < e ==> v[j] != '/',
        e == v.len() || v[e] == '/',
    ensures
        split_slash(v.skip(a))[0] == v.subrange(a, e),
        e == v.len() ==> split_slash(v.skip(a)).len() == 1,
        e < v.len() ==> split_slash(v.skip(a)) == seq![v.subrange(a, e)] + split_slash(v.skip(e + 1)),
{
    let s = v.skip(a);
    lemma_split_first(s, e - a);
    assert(s.take(e - a) =~= v.subrange(a, e));
    if e < v.len() {
        assert(s.skip(e - a + 1) =~= v.skip(e + 1));
        let sp = split_slash(s);
        assert(sp =~= seq![sp[0]] + sp.drop_first());
    }
}

/// The bounds of the second, third and fourth pieces of the path in `v`
/// (after its leading slashes), provided that it has at least four pieces
/// and the first one is `tile`.
fn tile_pieces(v: &Vec<char>) -> (r: Option<(usize, usize, usize, usize, usize, usize)>)
    ensures
        ({
            let segs = split_slash(trim_leading_slashes(v@));
            match r {
                None => segs.len() < 4 || segs[0] != seq!['t', 'i', 'l', 'e'],
                Some((a1, e1, a2, e2, a3, e3)) => {
                    &&& segs.len() >= 4
                    &&& segs[0] == seq!['t', 'i', 'l', 'e']
                    &&& a1 <= e1 <= v@.len() && a2 <= e2 <= v@.len() && a3 <= e3 <= v@.len()
                    &&& segs[1] == v@.subrange(a1 as int, e1 as int)
                    &&& segs[2] == v@.subrange(a2 as int, e2 as int)
                    &&& segs[3] == v@.subrange(a3 as int, e3 as int)
                }
            }
        }),
{
    let n = v.len();
    let mut i: usize = 0;
    while i < n && v[i] == '/'
        invariant
            i <= n == v@.len(),
            forall|j: int| 0 <= j < i ==> v@[j] == '/',
        decreases n - i,
    {
        i += 1;
    }
    proof {
        lemma_trim(v@, i as int);
    }
    let ghost segs = split_slash(v@.skip(i as int));
    let e0 = piece_end(v, i);
    proof {
        lemma_piece(v@, i as int, e0 as int);
    }
    let is_tile = e0 - i == 4 && v[i] == 't' && v[i + 1] == 'i' && v[i + 2] == 'l' && v[i + 3] == 'e';
    if !is_tile {
        proof {
            let p = v@.subrange(i as int, e0 as int);
            let t = seq!['t', 'i', 'l', 'e'];
            if segs[0] == t {
                assert(p.len() == 4);
                assert(p[0] == t[0] && p[1] == t[1] && p[2] == t[2] && p[3] == t[3]);
                assert(v@[i as int] == p[0]);
                assert(v@[i + 1] == p[1]);
                assert(v@[i + 2] == p[2]);
                assert(v@[i + 3] == p[3]);
            }
        }
        return None;
    }
    assert(segs[0] =~= seq!['t', 'i', 'l', 'e']);
    if e0 == n {
        return None;
    }
    let a1 = e0 + 1;
    let e1 = piece_end(v, a1);
    proof {
        lemma_piece(v@, a1 as int, e1 as int);
    }
    if e1 == n {
        return None;
    }
    let a2 = e1 + 1;
    let e2 = piece_end(v, a2);
    proof {
        lemma_piece(v@, a2 as int, e2 as int);
    }
    if e2 == n {
        return None;
    }
    let a3 = e2 + 1;
    let e3 = piece_end(v, a3);
    proof {
        lemma_piece(v@, a3 as int, e3 as int);
        let s3 = split_slash(v@.skip(a3 as int));
        assert(s3.len() >= 1);
    }
    Some((a1, e1, a2, e2, a3, e3))
}

/// Reads the tile that a request path names (see `tile_path_spec`).
pub fn parse_tile_path(path: &str) -> (r: Option<(u32, u16, i32)>)
    ensures
        r == tile_path_spec(path@),
{
    let v = crate::text::str_chars(path);
    let (a1, e1, a2, e2, a3, e3) = match tile_pieces(&v) {
        Some(p) => p,
        None => {
            return None;
        },
    };
    let id = match parse_unsigned_at(&v, a1, e1, 0xffff_ffff) {
        Some(x) => x,
        None => {
            return None;
        },
    };
    let page = match parse_unsigned_at(&v, a2, e2, 0xffff) {
        Some(x) => x,
        None => {
            return None;
        },
    };
    let width = match parse_i32_at(&v, a3, e3) {
        Some(x) => x,
        None => {
            return None;
        },
    };
    if !(MIN_TILE_WIDTH <= width && width <= MAX_TILE_WIDTH) {
        return None;
    }
    Some((id as u32, page as u16, width))
}


/// The answer to a tile request: HTTP status, media type and body.
pub struct TileReply {
    pub status: u16,
    pub mime: String,
    pub body: Vec<u8>,
}

/// The answer to a request whose path names no tile: 400, plain text.
pub fn invalid_tile_path_reply() -> (r: TileReply)
    ensures
        r.status == 400,
        r.mime@ == "text/plain"@,
        r.body@ == encode_utf8("ruta invalida"@),
{
    TileReply {
        status: 400,
        mime: String::from_str("text/plain"),
        body: "ruta invalida".as_bytes_vec(),
    }
}

/// The answer to a tile request from the outcome of rendering it: the PNG
/// with 200; 404 when the document is not open; 500 with the error's message
/// for any other failure.
pub fn tile_reply(outcome: Result<Vec<u8>, RenderError>) -> (r: TileReply)
    ensures
        match outcome {
            Ok(png) => r.status == 200 && r.mime@ == "image/png"@ && r.body@ == png@,
            Err(e) => match e@ {
                ErrorView::UnknownDocument(_) => r.status == 404 && r.mime@ == "text/plain"@
                    && r.body@ == encode_utf8("documento no abierto"@),
                _ => r.status == 500 && r.mime@ == "text/plain"@ && r.body@ == encode_utf8(
                    message_spec(e@),
                ),
            },
        },
{
    match outcome {
        Ok(png) => TileReply { status: 200, mime: String::from_str("image/png"), body: png },
        Err(RenderError::UnknownDocument(_)) => TileReply {
            status: 404,
            mime: String::from_str("text/plain"),
            body: "documento no abierto".as_bytes_vec(),
        },
        Err(e) => {
            let message = e.message();
            TileReply {
                status: 500,
                mime: String::from_str("text/plain"),
                body: message.as_str().as_bytes_vec(),
            }
        },
    }
}

proof fn lemma_dec_chars(n: nat)
    ensures
        dec_chars(n).len() > 0,
        all_digits(dec_chars(n)),
        digits_value(dec_chars(n)) == n,
        forall|i: int| 0 <= i < dec_chars(n).len() ==> #[trigger] dec_chars(n)[i] != '/',
    decreases n,
{
    let d = digit_char(n % 10);
    assert(d as int == '0' as int + n % 10);
    if n < 10 {
        let s = dec_chars(n);
        assert(s.drop_last() =~= Seq::<char>::empty());
        assert(s.last() == d);
        assert(digits_value(s) == digits_value(s.drop_last()) * 10 + ((s.last() as int - '0' as int) as nat));
    } else {
        lemma_dec_chars(n / 10);
        let s = dec_chars(n);
        assert(s.drop_last() =~= dec_chars(n / 10));
        assert((n / 10) * 10 + n % 10 == n) by (nonlinear_arith);
        assert(s.last() == d);
        assert(digits_value(s) == digits_value(s.drop_last()) * 10 + ((s.last() as int - '0' as int) as nat));
        assert forall|i: int| 0 <= i < s.len() implies #[trigger] is_ascii_digit(s[i]) by {
            if i < s.len() - 1 {
                assert(is_ascii_digit(dec_chars(n / 10)[i]));
            }
        }
    }
}

/// The path of the tile (`id`, `page`, `width`) as the viewer writes it,
/// `/tile/<id>/<page>/<width>` in decimal.
pub open spec fn tile_path_of(id: u32, page: u16, width: nat) -> Seq<char> {
    seq!['/', 't', 'i', 'l', 'e', '/'] + dec_chars(id as nat) + seq!['/'] + dec_chars(page as nat)
        + seq!['/'] + dec_chars(width)
}

proof fn lemma_three_pieces(a: Seq<char>, b: Seq<char>, c: Seq<char>)
    requires
        forall|i: int| 0 <= i < a.len() ==> #[trigger] a[i] != '/',
        forall|i: int| 0 <= i < b.len() ==> #[trigger] b[i] != '/',
        forall|i: int| 0 <= i < c.len() ==> #[trigger] c[i] != '/',
    ensures
        ({
            let segs = split_slash(
                trim_leading_slashes(
                    seq!['/', 't', 'i', 'l', 'e', '/'] + a + seq!['/'] + b + seq!['/'] + c,
                ),
            );
            &&& segs.len() == 4
            &&& segs[0] == seq!['t', 'i', 'l', 'e']
            &&& segs[1] == a
            &&& segs[2] == b
            &&& segs[3] == c
        }),
{
    let path = seq!['/', 't', 'i', 'l', 'e', '/'] + a + seq!['/'] + b + seq!['/'] + c;
    let s = path.skip(1);
    lemma_trim(path, 1);
    let tile = seq!['t', 'i', 'l', 'e'];
    let s1 = b + seq!['/'] + c;
    let s0 = a + seq!['/'] + s1;
    assert(s =~= tile + seq!['/'] + s0);
    lemma_split_first(s, 4);
    assert(s.take(4) =~= tile);
    assert(s.skip(5) =~= s0);
    lemma_split_first(s0, a.len() as int);
    assert(s0.take(a.len() as int) =~= a);
    assert(s0.skip(a.len() as int + 1) =~= s1);
    lemma_split_first(s1, b.len() as int);
    assert(s1.take(b.len() as int) =~= b);
    assert(s1.skip(b.len() as int + 1) =~= c);
    lemma_split_first(c, c.len() as int);
    assert(c.take(c.len() as int) =~= c);
    let segs = split_slash(s);
    assert(segs == seq![tile] + split_slash(s0));
    assert(split_slash(s0) == seq![a] + split_slash(s1));
    assert(split_slash(s1) == seq![b] + split_slash(c));
    assert(split_slash(c) =~= seq![c]);
    assert(segs =~= seq![tile, a, b, c]);
}

/// The path written for a tile of a served width is read back as that tile.
pub proof fn law_tile_path_roundtrip(id: u32, page: u16, width: i32)
    requires
        MIN_TILE_WIDTH <= width <= MAX_TILE_WIDTH,
    ensures
        tile_path_spec(tile_path_of(id, page, width as nat)) == Some((id, page, width)),
{
    let a = dec_chars(id as nat);
    let b = dec_chars(page as nat);
    let c = dec_chars(width as nat);
    lemma_dec_chars(id as nat);
    lemma_dec_chars(page as nat);
    lemma_dec_chars(width as nat);
    lemma_three_pieces(a, b, c);
    assert(a[0] != '+' && b[0] != '+' && c[0] != '+' && c[0] != '-') by {
        assert(is_ascii_digit(a[0]) && is_ascii_digit(b[0]) && is_ascii_digit(c[0]));
    }
    assert(parse_unsigned(a, 0xffff_ffff) == Some(id as nat));
    assert(parse_unsigned(b, 0xffff) == Some(page as nat));
    assert(parse_i32(c) == Some(width as int));
}

} // verus!
