//! Blank test sprites named after their size: `blank_<w>x<h>.aseprite` and
//! `blank_<w>x<h>_<n>f.aseprite`.

use vstd::prelude::*;
use vstd::utf8::encode_utf8;

use crate::document::model::{
    all_unlinked, blank_cel, blank_doc, lemma_add_frames_ok_unlinked, lemma_set_frame_count_len, set_frame_count_model,
};
use crate::document::pixels::ColorMode;
use crate::document::sprite::{DocView, SpriteDocument};

verus! {

/// One entry of the fixture list.
#[derive(Debug, PartialEq, Eq)]
pub struct ManifestEntry {
    pub id: String,
    pub file: String,
    pub source: String,
    pub frames: Option<u32>,
    pub width: Option<u32>,
    pub height: Option<u32>,
}

impl Clone for ManifestEntry {
    fn clone(&self) -> (r: Self)
        ensures
            r == *self,
    {
        ManifestEntry {
            id: self.id.clone(),
            file: self.file.clone(),
            source: self.source.clone(),
            frames: self.frames,
            width: self.width,
            height: self.height,
        }
    }
}

/// The bytes of ".aseprite".
pub open spec fn aseprite_suffix() -> Seq<u8> {
    seq![46u8, 97u8, 115u8, 101u8, 112u8, 114u8, 105u8, 116u8, 101u8]
}

/// The bytes of "blank".
pub open spec fn blank_word() -> Seq<u8> {
    seq![98u8, 108u8, 97u8, 110u8, 107u8]
}

/// The byte of '_'.
pub open spec fn underscore() -> u8 {
    95u8
}

/// The byte of 'x'.
pub open spec fn letter_x() -> u8 {
    120u8
}

/// The byte of 'f'.
pub open spec fn letter_f() -> u8 {
    102u8
}

/// The pieces of `s` between the separators (one piece when there is none;
/// empty pieces where separators meet or stand at an end).
pub open spec fn split_on(s: Seq<u8>, sep: u8) -> Seq<Seq<u8>>
    decreases s.len(),
{
    if s.len() == 0 {
        seq![Seq::<u8>::empty()]
    } else {
        let p = split_on(s.drop_last(), sep);
        if s.last() == sep {
            p.push(Seq::<u8>::empty())
        } else {
            p.update(p.len() - 1, p.last().push(s.last()))
        }
    }
}

/// A split always has at least one piece.
pub proof fn lemma_split_nonempty(s: Seq<u8>, sep: u8)
    ensures
        split_on(s, sep).len() >= 1,
    decreases s.len(),
{
    if s.len() > 0 {
        lemma_split_nonempty(s.drop_last(), sep);
    }
}

/// An ASCII decimal digit.
pub open spec fn is_digit(b: u8) -> bool {
    48 <= b <= 57
}

/// The value of a string of decimal digits.
pub open spec fn digits_value(s: Seq<u8>) -> nat
    decreases s.len(),
{
    if s.len() == 0 {
        0
    } else {
        digits_value(s.drop_last()) * 10 + (s.last() - 48) as nat
    }
}

/// The digits of a number: the text without a leading '+'.
pub open spec fn unsigned_digits(s: Seq<u8>) -> Seq<u8> {
    if s.len() > 0 && s[0] == 43 {
        s.drop_first()
    } else {
        s
    }
}

/// Every byte is a decimal digit.
pub open spec fn all_digits(d: Seq<u8>) -> bool {
    forall|i: int| 0 <= i < d.len() ==> is_digit(#[trigger] d[i])
}

/// What `str::parse::<u32>` gives: an optional '+', then at least one decimal
/// digit and nothing else, of a value that fits a `u32`.
pub open spec fn parse_u32(s: Seq<u8>) -> Option<u32> {
    let d = unsigned_digits(s);
    if d.len() == 0 || !all_digits(d) {
        None
    } else if digits_value(d) <= u32::MAX {
        Some(digits_value(d) as u32)
    } else {
        None
    }
}

/// The size and frame count a fixture's file name gives, from its UTF-8 bytes:
/// `blank_<w>x<h>[_..._<n>f].aseprite`. The frame count is 1 unless there are
/// at least three pieces and the last ends in 'f'; the size is the second piece.
pub open spec fn size_from_file_name(b: Seq<u8>) -> Option<(u32, u32, u32)> {
    if b.len() < 9 || b.subrange(b.len() - 9, b.len() as int) != aseprite_suffix() {
        None
    } else {
        let parts = split_on(b.take(b.len() - 9), underscore());
        if parts[0] != blank_word() || parts.len() < 2 {
            None
        } else {
            let last = parts.last();
            let frames = if last.len() > 0 && last.last() == letter_f() && parts.len() >= 3 {
                parse_u32(last.drop_last())
            } else {
                Some(1u32)
            };
            match frames {
                None => None,
                Some(f) => {
                    let wh = split_on(parts[1], letter_x());
                    if wh.len() != 2 {
                        None
                    } else {
                        match (parse_u32(wh[0]), parse_u32(wh[1])) {
                            (Some(w), Some(h)) => Some((w, h, f)),
                            _ => None,
                        }
                    }
                },
            }
        }
    }
}

/// Splits `s` at every `sep`.
fn split_bytes(s: &[u8], sep: u8) -> (parts: Vec<Vec<u8>>)
    ensures
        parts@.map_values(|p: Vec<u8>| p@) == split_on(s@, sep),
{
    let mut parts: Vec<Vec<u8>> = Vec::new();
    parts.push(Vec::new());
    let mut i: usize = 0;
    proof {
        assert(s@.take(0) =~= Seq::<u8>::empty());
        assert(parts@.map_values(|p: Vec<u8>| p@) =~= split_on(s@.take(0), sep));
    }
    while i < s.len()
        invariant
            i <= s.len(),
            parts@.len() >= 1,
            parts@.map_values(|p: Vec<u8>| p@) == split_on(s@.take(i as int), sep),
        decreases s.len() - i,
    {
        let b = s[i];
        let ghost before = parts@.map_values(|p: Vec<u8>| p@);
        proof {
            assert(s@.take(i + 1).drop_last() =~= s@.take(i as int));
            assert(s@.take(i + 1).last() == b);
        }
        if b == sep {
            parts.push(Vec::new());
            proof {
                assert(parts@.map_values(|p: Vec<u8>| p@) =~= before.push(Seq::<u8>::empty()));
            }
        } else {
            let mut last = parts.pop().unwrap();
            last.push(b);
            parts.push(last);
            proof {
                assert(parts@.map_values(|p: Vec<u8>| p@) =~= before.update(
                    before.len() - 1,
                    before.last().push(b),
                ));
            }
        }
        i = i + 1;
    }
    proof {
        assert(s@.take(s.len() as int) =~= s@);
    }
    parts
}

/// `str::parse::<u32>` on the bytes of a string.
fn parse_u32_bytes(s: &[u8]) -> (r: Option<u32>)
    ensures
        r == parse_u32(s@),
{
    let start: usize = if s.len() > 0 && s[0] == 43 {
        1
    } else {
        0
    };
    let ghost d = unsigned_digits(s@);
    proof {
        assert(d =~= s@.skip(start as int));
    }
    if start >= s.len() {
        return None;
    }
    let mut i: usize = start;
    let mut value: u32 = 0;
    let mut overflow = false;
    while i < s.len()
        invariant
            start <= i <= s.len(),
            d == unsigned_digits(s@),
            d =~= s@.skip(start as int),
            forall|j: int| 0 <= j < i - start ==> is_digit(#[trigger] d[j]),
            !overflow ==> value == digits_value(d.take(i - start)),
            overflow ==> digits_value(d.take(i - start)) > u32::MAX,
        decreases s.len() - i,
    {
        let b = s[i];
        proof {
            assert(d[i - start] == b);
        }
        if b < 48 || b > 57 {
            proof {
                assert(!is_digit(d[i - start]));
                assert(!all_digits(d));
            }
            return None;
        }
        proof {
            assert(d.take(i - start + 1).drop_last() =~= d.take(i - start));
            assert(d.take(i - start + 1).last() == b);
        }
        let digit = (b - 48) as u32;
        if !overflow {
            if value > (u32::MAX - digit) / 10 {
                overflow = true;
            } else {
                value = value * 10 + digit;
            }
        }
        i = i + 1;
    }
    proof {
        assert(d.take(d.len() as int) =~= d);
    }
    if overflow {
        None
    } else {
        Some(value)
    }
}

/// The size and frame count a fixture's file name gives.
pub fn parse_size_from_file(name: &str) -> (r: Option<(u32, u32, u32)>)
    ensures
        r == size_from_file_name(encode_utf8(name@)),
{
    let bytes = name.as_bytes();
    let n = bytes.len();
    if n < 9 || bytes[n - 9] != 46 || bytes[n - 8] != 97 || bytes[n - 7] != 115 || bytes[n - 6] != 101
        || bytes[n - 5] != 112 || bytes[n - 4] != 114 || bytes[n - 3] != 105 || bytes[n - 2] != 116
        || bytes[n - 1] != 101 {
        proof {
            if n >= 9 {
                assert(bytes@.subrange(n - 9, n as int) != aseprite_suffix()) by {
                    let t = bytes@.subrange(n - 9, n as int);
                    if t == aseprite_suffix() {
                        assert(t[0] == bytes@[n - 9]);
                        assert(t[1] == bytes@[n - 8]);
                        assert(t[2] == bytes@[n - 7]);
                        assert(t[3] == bytes@[n - 6]);
                        assert(t[4] == bytes@[n - 5]);
                        assert(t[5] == bytes@[n - 4]);
                        assert(t[6] == bytes@[n - 3]);
                        assert(t[7] == bytes@[n - 2]);
                        assert(t[8] == bytes@[n - 1]);
                    }
                }
            }
        }
        return None;
    }
    proof {
        assert(bytes@.subrange(n - 9, n as int) =~= aseprite_suffix());
    }
    let mut stem: Vec<u8> = Vec::new();
    let mut i: usize = 0;
    while i < n - 9
        invariant
            i <= n - 9,
            n == bytes@.len(),
            stem@ == bytes@.take(i as int),
        decreases n - 9 - i,
    {
        stem.push(bytes[i]);
        proof {
            assert(bytes@.take(i + 1) =~= bytes@.take(i as int).push(bytes@[i as int]));
        }
        i = i + 1;
    }
    let parts = split_bytes(stem.as_slice(), 95);
    let ghost ps = parts@.map_values(|p: Vec<u8>| p@);
    proof {
        lemma_split_nonempty(stem@, 95);
        assert(ps.len() == parts@.len());
    }
    let first = &parts[0];
    if first.len() != 5 || first[0] != 98 || first[1] != 108 || first[2] != 97 || first[3] != 110 || first[4] != 107 {
        proof {
            assert(ps[0] == first@);
            if first@ =~= blank_word() {
            }
        }
        return None;
    }
    proof {
        assert(ps[0] =~= blank_word());
    }
    if parts.len() < 2 {
        return None;
    }
    let mut frames: u32 = 1;
    let last = &parts[parts.len() - 1];
    proof {
        assert(ps.last() == last@);
    }
    if last.len() > 0 && last[last.len() - 1] == 102 && parts.len() >= 3 {
        let mut digits: Vec<u8> = Vec::new();
        let mut k: usize = 0;
        while k < last.len() - 1
            invariant
                k <= last.len() - 1,
                last.len() > 0,
                digits@ == last@.take(k as int),
            decreases last.len() - 1 - k,
        {
            digits.push(last[k]);
            proof {
                assert(last@.take(k + 1) =~= last@.take(k as int).push(last@[k as int]));
            }
            k = k + 1;
        }
        proof {
            assert(digits@ =~= last@.drop_last());
        }
        match parse_u32_bytes(digits.as_slice()) {
            Some(f) => {
                frames = f;
            },
            None => {
                return None;
            },
        }
    }
    let size_part = &parts[1];
    proof {
        assert(ps[1] == size_part@);
    }
    let wh = split_bytes(size_part.as_slice(), 120);
    if wh.len() != 2 {
        return None;
    }
    let ghost whs = wh@.map_values(|p: Vec<u8>| p@);
    proof {
        assert(whs[0] == wh@[0]@ && whs[1] == wh@[1]@);
    }
    let w = match parse_u32_bytes(wh[0].as_slice()) {
        Some(w) => w,
        None => {
            return None;
        },
    };
    let h = match parse_u32_bytes(wh[1].as_slice()) {
        Some(h) => h,
        None => {
            return None;
        },
    };
    Some((w, h, frames))
}

/// The size and frame count of an entry: its own width and height (and frame
/// count, 1 when absent) when it gives both, else those of its file name.
pub open spec fn entry_size(e: ManifestEntry) -> Option<(u32, u32, u32)> {
    match (e.width, e.height) {
        (Some(w), Some(h)) => Some(
            (
                w,
                h,
                match e.frames {
                    Some(f) => f,
                    None => 1,
                },
            ),
        ),
        _ => size_from_file_name(encode_utf8(e.file@)),
    }
}

/// An entry that gives its width and height gives that size and its own
/// frame count, 1 when it gives none, whatever its file name says.
pub proof fn lemma_entry_size_given(e: ManifestEntry)
    requires
        e.width is Some,
        e.height is Some,
    ensures
        entry_size(e) == Some(
            (
                e.width->0,
                e.height->0,
                if e.frames is Some {
                    e.frames->0
                } else {
                    1u32
                },
            ),
        ),
{
}

/// The blank indexed sprite of a manifest entry, with its frame count.
pub fn doc_for_entry(entry: &ManifestEntry) -> (r: Option<SpriteDocument>)
    ensures
        entry.width is Some && entry.height is Some ==> (r matches Some(doc) && doc.width == entry.width->0
            && doc.height == entry.height->0 && doc.color_mode == ColorMode::Indexed && doc.frames.len() == (
        if entry.frames is Some {
            entry.frames->0
        } else {
            1u32
        })),
        match entry_size(*entry) {
            None => r is None,
            Some((w, h, f)) => r matches Some(doc) && doc@ == set_frame_count_model(
                blank_doc(w, h, ColorMode::Indexed),
                f as nat,
            ),
        },
{
    let (w, h, frames) = match (entry.width, entry.height) {
        (Some(w), Some(h)) => (
            w,
            h,
            match entry.frames {
                Some(f) => f,
                None => 1,
            },
        ),
        _ => match parse_size_from_file(entry.file.as_str()) {
            Some(t) => t,
            None => {
                return None;
            },
        },
    };
    let mut doc = SpriteDocument::new_blank(w, h, ColorMode::Indexed);
    proof {
        let d = blank_doc(w, h, ColorMode::Indexed);
        assert(all_unlinked(d)) by {
            assert(d.cels[0] == blank_cel());
        }
        if d.frames.len() < frames {
            lemma_add_frames_ok_unlinked(d, (frames - d.frames.len()) as nat);
        }
    }
    doc.set_frame_count(frames as usize);
    proof {
        lemma_set_frame_count_len(blank_doc(w, h, ColorMode::Indexed), frames as nat);
    }
    Some(doc)
}

} // verus!
