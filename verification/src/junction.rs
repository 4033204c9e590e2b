//! The reparse data that turns a directory into a Windows junction (a
//! mount point): a fixed header, then the target as a `\??\`-prefixed
//! substitute name and as a print name, both UTF-16 with a closing NUL,
//! padded so that the data length is a multiple of eight.

use vstd::prelude::*;

use crate::text::{chars_of, strip_trail, strip_trail_v};

verus! {

/// Forward slashes turned into backslashes.
pub open spec fn backslashes(s: Seq<char>) -> Seq<char> {
    s.map_values(|c: char| if c == '/' { '\\' } else { c })
}

/// The target as a junction names it: backslashes, no trailing one.
pub open spec fn junction_target(target: Seq<char>) -> Seq<char> {
    strip_trail(backslashes(target), '\\')
}

/// The UTF-16 code units of one character.
pub open spec fn utf16_char(c: char) -> Seq<u16> {
    let v = c as int;
    if v < 0x10000 {
        seq![v as u16]
    } else {
        let w = v - 0x10000;
        seq![(0xD800 + w / 0x400) as u16, (0xDC00 + w % 0x400) as u16]
    }
}

/// The UTF-16 code units of a text.
pub open spec fn utf16(s: Seq<char>) -> Seq<u16>
    decreases s.len(),
{
    if s.len() == 0 {
        Seq::empty()
    } else {
        utf16(s.drop_last()) + utf16_char(s.last())
    }
}

/// A 16-bit value in little-endian byte order.
pub open spec fn le_u16(x: int) -> Seq<u8> {
    seq![(x % 256) as u8, (x / 256 % 256) as u8]
}

/// Code units in little-endian byte order.
pub open spec fn le_words(ws: Seq<u16>) -> Seq<u8>
    decreases ws.len(),
{
    if ws.len() == 0 {
        Seq::empty()
    } else {
        le_words(ws.drop_last()) + le_u16(ws.last() as int)
    }
}

/// The byte length of a name as its 16-bit length field holds it.
pub open spec fn name_bytes(ws: Seq<u16>) -> int {
    ((2 * ws.len()) % 0x10000) as int
}

/// The reparse data length: the four name fields and both names, rounded
/// up to a multiple of eight.
pub open spec fn data_length(sb: int, pb: int) -> int {
    (8 + sb + pb + 7) / 8 * 8
}

/// The whole reparse buffer for a junction to `target`.
pub open spec fn mount_point_bytes(target: Seq<char>) -> Seq<u8> {
    let t = junction_target(target);
    let sw = utf16("\\??\\"@ + t).push(0u16);
    let pw = utf16(t).push(0u16);
    let sb = name_bytes(sw);
    let pb = name_bytes(pw);
    let dl = data_length(sb, pb);
    let data = seq![0x03u8, 0x00u8, 0x00u8, 0xA0u8] + le_u16(dl % 0x10000) + le_u16(0) + le_u16(0)
        + le_u16(sb) + le_u16(sb) + le_u16(pb) + le_words(sw) + le_words(pw);
    if data.len() < 8 + dl {
        data + Seq::new((8 + dl - data.len()) as nat, |i: int| 0u8)
    } else {
        data
    }
}

fn backslashes_v(s: &Vec<char>) -> (r: Vec<char>)
    ensures
        r@ == backslashes(s@),
{
    let mut r: Vec<char> = Vec::new();
    let mut i: usize = 0;
    while i < s.len()
        invariant
            i <= s.len(),
            r@ == backslashes(s@).take(i as int),
        decreases s.len() - i,
    {
        let c = s[i];
        r.push(if c == '/' { '\\' } else { c });
        assert(backslashes(s@).take(i + 1) =~= backslashes(s@).take(i as int).push(
            backslashes(s@)[i as int],
        ));
        i = i + 1;
    }
    assert(backslashes(s@).take(s.len() as int) =~= backslashes(s@));
    r
}

fn push_utf16(out: &mut Vec<u16>, c: char)
    ensures
        final(out)@ == old(out)@ + utf16_char(c),
{
    let v = c as u32;
    if v < 0x10000 {
        out.push(v as u16);
        assert(final(out)@ =~= old(out)@ + utf16_char(c)) by {
            assert(out@ =~= old(out)@ + utf16_char(c));
        }
    } else {
        let w = v - 0x10000;
        out.push((0xD800 + w / 0x400) as u16);
        out.push((0xDC00 + w % 0x400) as u16);
        assert(out@ =~= old(out)@ + utf16_char(c));
    }
}

fn utf16_v(s: &Vec<char>) -> (r: Vec<u16>)
    ensures
        r@ == utf16(s@),
{
    let mut r: Vec<u16> = Vec::new();
    let mut i: usize = 0;
    assert(s@.take(0) =~= Seq::<char>::empty());
    while i < s.len()
        invariant
            i <= s.len(),
            r@ == utf16(s@.take(i as int)),
        decreases s.len() - i,
    {
        assert(s@.take(i + 1).drop_last() =~= s@.take(i as int));
        assert(s@.take(i + 1).last() == s@[i as int]);
        push_utf16(&mut r, s[i]);
        i = i + 1;
    }
    assert(s@.take(s.len() as int) =~= s@);
    r
}

fn push_le_u16(out: &mut Vec<u8>, x: u16)
    ensures
        final(out)@ == old(out)@ + le_u16(x as int),
{
    out.push((x % 256) as u8);
    out.push((x / 256) as u8);
    assert(out@ =~= old(out)@ + le_u16(x as int));
}

fn push_words(out: &mut Vec<u8>, ws: &Vec<u16>)
    ensures
        final(out)@ == old(out)@ + le_words(ws@),
{
    let ghost start = out@;
    let mut i: usize = 0;
    assert(ws@.take(0) =~= Seq::<u16>::empty());
    assert(out@ =~= start + le_words(ws@.take(0)));
    while i < ws.len()
        invariant
            i <= ws.len(),
            out@ == start + le_words(ws@.take(i as int)),
        decreases ws.len() - i,
    {
        assert(ws@.take(i + 1).drop_last() =~= ws@.take(i as int));
        assert(ws@.take(i + 1).last() == ws@[i as int]);
        push_le_u16(out, ws[i]);
        assert(out@ =~= start + le_words(ws@.take(i + 1)));
        i = i + 1;
    }
    assert(ws@.take(ws.len() as int) =~= ws@);
}

fn field_bytes(ws: &Vec<u16>) -> (r: u16)
    ensures
        r as int == name_bytes(ws@),
{
    let n = ws.len();
    let r = ((n % 32768) * 2) as u16;
    assert((2 * n) % 0x10000 == 2 * (n % 32768)) by (nonlinear_arith);
    r
}

/// The reparse buffer that makes a directory a junction to `target` (an
/// absolute path): tag `0xA0000003`, data length, then the substitute name
/// `\??\<target>` and the print name `<target>`, each UTF-16 with a NUL.
pub fn mount_point_buffer(target: &str) -> (r: Vec<u8>)
    ensures
        r@ == mount_point_bytes(target@),
{
    let t = strip_trail_v(&backslashes_v(&chars_of(target)), '\\');
    let mut subst = chars_of("\\??\\");
    let mut i: usize = 0;
    let ghost p = subst@;
    while i < t.len()
        invariant
            i <= t.len(),
            subst@ == p + t@.take(i as int),
        decreases t.len() - i,
    {
        subst.push(t[i]);
        assert(t@.take(i + 1) =~= t@.take(i as int).push(t@[i as int]));
        i = i + 1;
    }
    assert(t@.take(t.len() as int) =~= t@);
    let mut sw = utf16_v(&subst);
    sw.push(0);
    let mut pw = utf16_v(&t);
    pw.push(0);
    let sb = field_bytes(&sw);
    let pb = field_bytes(&pw);
    let body: u32 = 8 + sb as u32 + pb as u32;
    let dl: u32 = (body + 7) / 8 * 8;
    let mut buf: Vec<u8> = Vec::new();
    buf.push(0x03);
    buf.push(0x00);
    buf.push(0x00);
    buf.push(0xA0);
    push_le_u16(&mut buf, (dl % 0x10000) as u16);
    push_le_u16(&mut buf, 0);
    push_le_u16(&mut buf, 0);
    push_le_u16(&mut buf, sb);
    push_le_u16(&mut buf, sb);
    push_le_u16(&mut buf, pb);
    push_words(&mut buf, &sw);
    push_words(&mut buf, &pw);
    let ghost data = buf@;
    let total: usize = (8 + dl) as usize;
    assert(data + Seq::new(0, |k: int| 0u8) =~= data);
    while buf.len() < total
        invariant
            data.len() <= buf.len(),
            data.len() >= total ==> buf.len() == data.len(),
            data.len() < total ==> buf.len() <= total,
            buf@ == data + Seq::new((buf.len() - data.len()) as nat, |k: int| 0u8),
        decreases total - buf.len(),
    {
        let ghost before = buf@;
        buf.push(0);
        assert(buf@ =~= data + Seq::new((buf.len() - data.len()) as nat, |k: int| 0u8));
    }
    proof {
        let tt = junction_target(target@);
        assert(t@ == tt);
        assert(subst@ =~= "\\??\\"@ + tt);
        assert(data =~= seq![0x03u8, 0x00u8, 0x00u8, 0xA0u8] + le_u16(dl as int % 0x10000) + le_u16(0)
            + le_u16(0) + le_u16(sb as int) + le_u16(sb as int) + le_u16(pb as int) + le_words(sw@)
            + le_words(pw@));
        if data.len() >= 8 + dl {
            assert(buf@ =~= data);
        } else {
            assert(buf.len() == 8 + dl);
        }
    }
    buf
}

} // verus!
