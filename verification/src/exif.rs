//! The `UserComment` of a TIFF/EXIF block, in ASCII or UTF-16 of either
//! byte order.
use vstd::prelude::*;
use crate::text::{
    chars_of, clean_non_empty, clean_text, non_empty_text, opt_view, strip_nul, trim,
};
use crate::unicode::{utf16_lossy, utf16_decode, utf8_lossy, utf8_lossy_text};

verus! {

pub const TAG_EXIF_IFD: u16 = 0x8769;

pub const TAG_USER_COMMENT: u16 = 0x9286;

/// `Exif\0\0`, which may stand before the TIFF header.
pub open spec fn exif_prefix() -> Seq<u8> {
    seq![0x45u8, 0x78, 0x69, 0x66, 0x00, 0x00]
}

/// `UNICODE\0`, the character-code field of a UTF-16 comment.
pub open spec fn unicode_charset() -> Seq<u8> {
    seq![0x55u8, 0x4e, 0x49, 0x43, 0x4f, 0x44, 0x45, 0x00]
}

/// The 16-bit word at `off`, in the given byte order.
pub open spec fn u16v(d: Seq<u8>, off: int, le: bool) -> int {
    if le {
        d[off] as int + 256 * d[off + 1] as int
    } else {
        256 * d[off] as int + d[off + 1] as int
    }
}

/// The 32-bit word at `off`, in the given byte order.
pub open spec fn u32v(d: Seq<u8>, off: int, le: bool) -> int {
    if le {
        d[off] as int + 256 * d[off + 1] as int + 65536 * d[off + 2] as int + 16777216 * d[off
            + 3] as int
    } else {
        16777216 * d[off] as int + 65536 * d[off + 1] as int + 256 * d[off + 2] as int + d[off
            + 3] as int
    }
}

/// The 16-bit word at `off`, if the data holds it.
pub open spec fn u16_at(d: Seq<u8>, off: int, le: bool) -> Option<int> {
    if 0 <= off && off + 2 <= d.len() {
        Some(u16v(d, off, le))
    } else {
        None
    }
}

/// The 32-bit word at `off`, if the data holds it.
pub open spec fn u32_at(d: Seq<u8>, off: int, le: bool) -> Option<int> {
    if 0 <= off && off + 4 <= d.len() {
        Some(u32v(d, off, le))
    } else {
        None
    }
}

/// The byte order of a TIFF header (`true` for `II`, little-endian), if the
/// data starts with a valid one.
pub open spec fn tiff_order(d: Seq<u8>) -> Option<bool> {
    if d.len() < 8 {
        None
    } else if d[0] == 0x49 && d[1] == 0x49 && u16v(d, 2, true) == 42 {
        Some(true)
    } else if d[0] == 0x4d && d[1] == 0x4d && u16v(d, 2, false) == 42 {
        Some(false)
    } else {
        None
    }
}

/// The UTF-16 code units of `b`, two bytes each, a trailing odd byte dropped.
pub open spec fn utf16_units(b: Seq<u8>, le: bool) -> Seq<u16> {
    Seq::new((b.len() / 2) as nat, |i: int| u16v(b, 2 * i, le) as u16)
}

/// A text with NULs and then whitespace removed from both ends.
pub open spec fn clean(s: Seq<char>) -> Seq<char> {
    trim(strip_nul(s))
}

/// The text of a UTF-16 comment body: a byte-order mark, where present,
/// overrides the TIFF byte order.
pub open spec fn utf16_comment(body: Seq<u8>, tiff_le: bool) -> Seq<char> {
    if body.len() < 2 {
        Seq::empty()
    } else if body[0] == 0xff && body[1] == 0xfe {
        clean(utf16_decode(utf16_units(body.skip(2), true)))
    } else if body[0] == 0xfe && body[1] == 0xff {
        clean(utf16_decode(utf16_units(body.skip(2), false)))
    } else {
        clean(utf16_decode(utf16_units(body, tiff_le)))
    }
}

/// The comment stored at `offset` with the declared byte `count` (cut to the
/// data's end): an 8-byte character code, then the text.
pub open spec fn comment_at(d: Seq<u8>, le: bool, offset: int, count: int) -> Option<Seq<char>> {
    if offset < 0 || offset >= d.len() {
        None
    } else {
        let n = if count < d.len() - offset {
            count
        } else {
            d.len() - offset
        };
        if n < 8 {
            None
        } else {
            let charset = d.subrange(offset, offset + 8);
            let body = d.subrange(offset + 8, offset + n);
            let text = if charset == unicode_charset() {
                utf16_comment(body, le)
            } else {
                clean(utf8_lossy_text(body))
            };
            non_empty_text(text)
        }
    }
}

/// The outcome of reading the entries of one IFD.
pub enum EntryScan {
    /// A `UserComment` entry gave this text.
    Found(Seq<char>),
    /// No comment; the offset of the EXIF sub-IFD, if an entry named one.
    Next(Option<int>),
}

/// Reads entries `i..n` of the IFD whose entries start at `base`; `exif` is
/// the sub-IFD offset met so far. An entry that the data does not hold whole
/// ends the reading.
pub open spec fn scan_entries(
    d: Seq<u8>,
    le: bool,
    base: int,
    n: int,
    i: int,
    exif: Option<int>,
) -> EntryScan
    decreases n - i,
{
    if i >= n || i < 0 || base + 12 * i + 12 > d.len() {
        EntryScan::Next(exif)
    } else {
        let e = base + 12 * i;
        let tag = u16v(d, e, le);
        if tag == TAG_USER_COMMENT {
            match comment_at(d, le, u32v(d, e + 8, le), u32v(d, e + 4, le)) {
                Some(t) => EntryScan::Found(t),
                None => scan_entries(d, le, base, n, i + 1, exif),
            }
        } else if tag == TAG_EXIF_IFD {
            scan_entries(d, le, base, n, i + 1, Some(u32v(d, e + 8, le)))
        } else {
            scan_entries(d, le, base, n, i + 1, exif)
        }
    }
}

/// The comment found in the IFD at `offset` or, failing that, in the EXIF
/// sub-IFD it names, following at most four such links.
pub open spec fn scan_ifd(d: Seq<u8>, le: bool, offset: int, depth: int) -> Option<Seq<char>>
    decreases 5 - depth,
{
    if depth > 4 || offset < 0 || offset + 2 > d.len() {
        None
    } else {
        match scan_entries(d, le, offset + 2, u16v(d, offset, le), 0, None) {
            EntryScan::Found(t) => Some(t),
            EntryScan::Next(Some(next)) => scan_ifd(d, le, next, depth + 1),
            EntryScan::Next(None) => None,
        }
    }
}

/// The TIFF data of an EXIF block: what follows `Exif\0\0` where that
/// prefix stands, else the whole block.
pub open spec fn tiff_data(d: Seq<u8>) -> Seq<u8> {
    if d.len() >= 6 && d.take(6) == exif_prefix() {
        d.skip(6)
    } else {
        d
    }
}

/// The `UserComment` of an EXIF block, starting at IFD0.
pub open spec fn user_comment_of(d: Seq<u8>) -> Option<Seq<char>> {
    let tiff = tiff_data(d);
    match tiff_order(tiff) {
        Some(le) => scan_ifd(tiff, le, u32v(tiff, 4, le), 0),
        None => None,
    }
}

/// The `UserComment` text of an EXIF block, trimmed, or `None` where there
/// is no valid header, no such entry, or only an empty comment.
pub fn extract_user_comment(data: &[u8]) -> (r: Option<String>)
    ensures
        opt_view(r) == user_comment_of(data@),
{
    let tiff = if data.len() >= 6 && data[0] == 0x45 && data[1] == 0x78 && data[2] == 0x69
        && data[3] == 0x66 && data[4] == 0 && data[5] == 0 {
        assert(data@.take(6) == exif_prefix());
        vstd::slice::slice_subrange(data, 6, data.len())
    } else {
        assert(data@.len() >= 6 ==> data@.take(6) != exif_prefix()) by {
            if data@.len() >= 6 && data@.take(6) == exif_prefix() {
                assert(data@.take(6)[0] == data@[0]);
                assert(data@.take(6)[1] == data@[1]);
                assert(data@.take(6)[2] == data@[2]);
                assert(data@.take(6)[3] == data@[3]);
                assert(data@.take(6)[4] == data@[4]);
                assert(data@.take(6)[5] == data@[5]);
            }
        }
        data
    };
    assert(tiff@ == tiff_data(data@));
    match ExifReader::new(tiff) {
        Some(reader) => reader.user_comment(),
        None => None,
    }
}

/// An optional offset as an integer.
pub open spec fn opt_offset(o: Option<usize>) -> Option<int> {
    match o {
        Some(v) => Some(v as int),
        None => None,
    }
}

/// A TIFF block with its byte order.
struct ExifReader<'a> {
    data: &'a [u8],
    le: bool,
}

impl<'a> ExifReader<'a> {
    /// A reader over `data`, if it starts with a valid TIFF header.
    fn new(data: &'a [u8]) -> (r: Option<Self>)
        ensures
            match r {
                Some(rd) => tiff_order(data@) == Some(rd.le) && rd.data@ == data@,
                None => tiff_order(data@) is None,
            },
    {
        if data.len() < 8 {
            return None;
        }
        let le = if data[0] == 0x49 && data[1] == 0x49 {
            true
        } else if data[0] == 0x4d && data[1] == 0x4d {
            false
        } else {
            return None;
        };
        let magic = match read_u16(data, 2, le) {
            Some(m) => m,
            None => return None,
        };
        if magic != 42 {
            return None;
        }
        Some(ExifReader { data, le })
    }

    fn u16(&self, off: usize) -> (r: Option<u16>)
        ensures
            r matches Some(v) ==> u16_at(self.data@, off as int, self.le) == Some(v as int),
            r is None ==> u16_at(self.data@, off as int, self.le) is None,
    {
        read_u16(self.data, off, self.le)
    }

    fn u32(&self, off: usize) -> (r: Option<u32>)
        ensures
            r matches Some(v) ==> u32_at(self.data@, off as int, self.le) == Some(v as int),
            r is None ==> u32_at(self.data@, off as int, self.le) is None,
    {
        read_u32(self.data, off, self.le)
    }

    fn user_comment(&self) -> (r: Option<String>)
        requires
            tiff_order(self.data@) == Some(self.le),
        ensures
            opt_view(r) == scan_ifd(self.data@, self.le, u32v(self.data@, 4, self.le), 0),
    {
        let ifd0 = match self.u32(4) {
            Some(v) => v as usize,
            None => return None,
        };
        self.scan_ifd(ifd0, 0)
    }

    fn scan_ifd(&self, offset: usize, depth: u8) -> (r: Option<String>)
        ensures
            opt_view(r) == scan_ifd(self.data@, self.le, offset as int, depth as int),
        decreases 5 - depth,
    {
        let ghost d = self.data@;
        if depth > 4 {
            return None;
        }
        let len = self.data.len();
        let entry_count = match self.u16(offset) {
            Some(n) => n as usize,
            None => return None,
        };
        assert(offset + 2 <= len);
        let base = offset + 2;
        let mut exif_ifd: Option<usize> = None;
        let mut i: usize = 0;
        while i < entry_count
            invariant
                d == self.data@,
                len == d.len(),
                base == offset + 2,
                base <= len,
                depth <= 4,
                i <= entry_count,
                entry_count == u16v(d, offset as int, self.le),
                scan_entries(d, self.le, base as int, entry_count as int, 0, None) == scan_entries(
                    d,
                    self.le,
                    base as int,
                    entry_count as int,
                    i as int,
                    opt_offset(exif_ifd),
                ),
            ensures
                scan_entries(d, self.le, base as int, entry_count as int, 0, None) == EntryScan::Next(opt_offset(exif_ifd)),
            decreases entry_count - i,
        {
            if i * 12 > len - base || len - base - i * 12 < 12 {
                assert(scan_entries(d, self.le, base as int, entry_count as int, i as int, opt_offset(exif_ifd))
                    == EntryScan::Next(opt_offset(exif_ifd)));
                break;
            }
            let e = base + i * 12;
            assert(e + 12 <= len);
            let tag = match self.u16(e) {
                Some(t) => t,
                None => return None,
            };
            let count = match self.u32(e + 4) {
                Some(c) => c as usize,
                None => return None,
            };
            let ghost before = opt_offset(exif_ifd);
            if tag == TAG_USER_COMMENT {
                let val_off = match self.u32(e + 8) {
                    Some(v) => v as usize,
                    None => return None,
                };
                let text = self.decode_user_comment(val_off, count);
                if text.is_some() {
                    assert(scan_entries(d, self.le, base as int, entry_count as int, i as int, before)
                        == EntryScan::Found(opt_view(text)->0));
                    return text;
                }
            } else if tag == TAG_EXIF_IFD {
                exif_ifd = match self.u32(e + 8) {
                    Some(v) => Some(v as usize),
                    None => return None,
                };
            }
            i = i + 1;
        }
        assert(scan_entries(d, self.le, base as int, entry_count as int, i as int, opt_offset(exif_ifd))
            == EntryScan::Next(opt_offset(exif_ifd)));
        match exif_ifd {
            Some(off) => self.scan_ifd(off, depth + 1),
            None => None,
        }
    }

    fn decode_user_comment(&self, offset: usize, count: usize) -> (r: Option<String>)
        ensures
            opt_view(r) == comment_at(self.data@, self.le, offset as int, count as int),
    {
        let len = self.data.len();
        if offset >= len {
            return None;
        }
        let count = if count < len - offset {
            count
        } else {
            len - offset
        };
        if count < 8 {
            return None;
        }
        let d = self.data;
        let body = vstd::slice::slice_subrange(d, offset + 8, offset + count);
        let is_unicode = d[offset] == 0x55 && d[offset + 1] == 0x4e && d[offset + 2] == 0x49
            && d[offset + 3] == 0x43 && d[offset + 4] == 0x4f && d[offset + 5] == 0x44 && d[offset
            + 6] == 0x45 && d[offset + 7] == 0x00;
        let ghost charset = d@.subrange(offset as int, offset + 8);
        proof {
            if is_unicode {
                assert(charset == unicode_charset());
            } else {
                assert(charset != unicode_charset()) by {
                    if charset == unicode_charset() {
                        assert(charset[0] == d@[offset as int]);
                        assert(charset[1] == d@[offset + 1]);
                        assert(charset[2] == d@[offset + 2]);
                        assert(charset[3] == d@[offset + 3]);
                        assert(charset[4] == d@[offset + 4]);
                        assert(charset[5] == d@[offset + 5]);
                        assert(charset[6] == d@[offset + 6]);
                        assert(charset[7] == d@[offset + 7]);
                    }
                }
            }
        }
        assert(body@ == d@.subrange(offset + 8, offset + count));
        if is_unicode {
            let text = decode_utf16(body, self.le);
            let cs = chars_of(text.as_str());
            if cs.len() == 0 {
                None
            } else {
                Some(text)
            }
        } else {
            let text = utf8_lossy(body);
            let cs = chars_of(text.as_str());
            assert(cs@.subrange(0, cs@.len() as int) == cs@);
            clean_non_empty(&cs, 0, cs.len())
        }
    }
}

/// The text of a UTF-16 comment body, NULs and whitespace trimmed. A body
/// that is the UTF-16 encoding of a text, after a byte-order mark or in the
/// TIFF byte order, reads back as that text.
pub fn decode_utf16(bytes: &[u8], tiff_le: bool) -> (s: String)
    ensures
        s@ == utf16_comment(bytes@, tiff_le),
        forall|t: Seq<char>|
            bytes@ == seq![0xffu8, 0xfe] + #[trigger] crate::laws::units_bytes(
                crate::laws::utf16_encode(t),
                true,
            ) ==> s@ == clean(t),
        forall|t: Seq<char>|
            bytes@ == seq![0xfeu8, 0xff] + #[trigger] crate::laws::units_bytes(
                crate::laws::utf16_encode(t),
                false,
            ) ==> s@ == clean(t),
        forall|t: Seq<char>|
            bytes@ == #[trigger] crate::laws::units_bytes(crate::laws::utf16_encode(t), tiff_le) && (
            t.len() == 0 || (t[0] != '\u{feff}' && t[0] != '\u{fffe}')) ==> s@ == clean(t),
{
    assert forall|t: Seq<char>|
        #![trigger crate::laws::utf16_encode(t)]
        utf16_comment(
        seq![0xffu8, 0xfe] + crate::laws::units_bytes(crate::laws::utf16_encode(t), true),
        tiff_le,
    ) == clean(t) && utf16_comment(
        seq![0xfeu8, 0xff] + crate::laws::units_bytes(crate::laws::utf16_encode(t), false),
        tiff_le,
    ) == clean(t) && (t.len() == 0 || (t[0] != '\u{feff}' && t[0] != '\u{fffe}')
        ==> utf16_comment(crate::laws::units_bytes(crate::laws::utf16_encode(t), tiff_le), tiff_le)
        == clean(t)) by {
        crate::laws::law_utf16_comment_round_trip(t, tiff_le);
    }
    if bytes.len() < 2 {
        return String::new();
    }
    let (le, data) = if bytes[0] == 0xff && bytes[1] == 0xfe {
        (true, vstd::slice::slice_subrange(bytes, 2, bytes.len()))
    } else if bytes[0] == 0xfe && bytes[1] == 0xff {
        (false, vstd::slice::slice_subrange(bytes, 2, bytes.len()))
    } else {
        (tiff_le, bytes)
    };
    assert(bytes@.skip(2) == bytes@.subrange(2, bytes@.len() as int));
    let mut words: Vec<u16> = Vec::new();
    let dl = data.len();
    let n = dl / 2;
    let mut k: usize = 0;
    while k < n
        invariant
            n == data@.len() / 2,
            dl == data@.len(),
            k <= n,
            words@ == utf16_units(data@, le).take(k as int),
        decreases n - k,
    {
        assert(2 * k + 2 <= data@.len());
        let w = match read_u16(data, 2 * k, le) {
            Some(w) => w,
            None => 0,
        };
        words.push(w);
        assert(words@ == utf16_units(data@, le).take(k + 1));
        k = k + 1;
    }
    assert(words@ == utf16_units(data@, le));
    let text = utf16_lossy(words.as_slice());
    let cs = chars_of(text.as_str());
    assert(cs@.subrange(0, cs@.len() as int) == cs@);
    clean_text(&cs, 0, cs.len())
}

fn read_u16(data: &[u8], off: usize, le: bool) -> (r: Option<u16>)
    ensures
        r matches Some(v) ==> u16_at(data@, off as int, le) == Some(v as int),
        r is None ==> u16_at(data@, off as int, le) is None,
{
    if off > data.len() || data.len() - off < 2 {
        return None;
    }
    let b0 = data[off] as u16;
    let b1 = data[off + 1] as u16;
    Some(
        if le {
            b0 + 256 * b1
        } else {
            256 * b0 + b1
        },
    )
}

fn read_u32(data: &[u8], off: usize, le: bool) -> (r: Option<u32>)
    ensures
        r matches Some(v) ==> u32_at(data@, off as int, le) == Some(v as int),
        r is None ==> u32_at(data@, off as int, le) is None,
{
    if off > data.len() || data.len() - off < 4 {
        return None;
    }
    let b0 = data[off] as u32;
    let b1 = data[off + 1] as u32;
    let b2 = data[off + 2] as u32;
    let b3 = data[off + 3] as u32;
    Some(
        if le {
            b0 + 256 * b1 + 65536 * b2 + 16777216 * b3
        } else {
            16777216 * b0 + 65536 * b1 + 256 * b2 + b3
        },
    )
}

} // verus!
