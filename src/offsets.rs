use vstd::prelude::*;
use vstd::string::*;
use vstd::utf8::*;

use crate::segment::{sections_well_formed, DetectedLanguage, DetectionError, RawDetection};

verus! {

/// Number of bytes in the UTF-8 encoding of `chars`.
pub open spec fn utf8_len(chars: Seq<char>) -> int {
    encode_utf8(chars).len() as int
}

/// The first `b` bytes of the encoding of `text` encode exactly its first `k`
/// characters.
pub open spec fn offset_pair(text: Seq<char>, b: int, k: int) -> bool {
    0 <= k <= text.len() && utf8_len(text.take(k)) == b
}

/// Byte offset `b` falls between two characters of `text` (or at either end).
pub open spec fn on_char_boundary(text: Seq<char>, b: int) -> bool {
    exists|k: int| offset_pair(text, b, k)
}

/// The number of characters of `text` that the first `b` bytes of its
/// encoding hold; meaningful where `on_char_boundary(text, b)`.
pub open spec fn char_offset(text: Seq<char>, b: int) -> int {
    choose|k: int| offset_pair(text, b, k)
}

/// Encoding distributes over concatenation.
pub proof fn lemma_encode_concat(a: Seq<char>, b: Seq<char>)
    ensures
        encode_utf8(a + b) == encode_utf8(a) + encode_utf8(b),
    decreases a.len(),
{
    if a.len() == 0 {
        assert(a + b =~= b);
        assert(encode_utf8(a) + encode_utf8(b) =~= encode_utf8(b));
    } else {
        assert((a + b).drop_first() =~= a.drop_first() + b);
        assert((a + b)[0] == a[0]);
        lemma_encode_concat(a.drop_first(), b);
        assert(encode_utf8(a + b) =~= encode_utf8(a) + encode_utf8(b));
    }
}

/// Taking one more character adds the length of its encoding, which is at
/// least one byte.
pub proof fn lemma_utf8_len_step(text: Seq<char>, k: int)
    requires
        0 <= k < text.len(),
    ensures
        utf8_len(text.take(k + 1)) == utf8_len(text.take(k)) + encode_scalar(text[k] as u32).len(),
        encode_scalar(text[k] as u32).len() >= 1,
{
    let one = seq![text[k]];
    assert(text.take(k + 1) =~= text.take(k) + one);
    lemma_encode_concat(text.take(k), one);
    assert(one.drop_first() =~= Seq::<char>::empty());
    assert(encode_utf8(one) =~= encode_scalar(text[k] as u32) + encode_utf8(one.drop_first()));
    assert(encode_utf8(one) =~= encode_scalar(text[k] as u32));
}

/// A longer prefix has a strictly longer encoding.
pub proof fn lemma_utf8_len_strictly_increasing(text: Seq<char>, j: int, k: int)
    requires
        0 <= j < k <= text.len(),
    ensures
        utf8_len(text.take(j)) < utf8_len(text.take(k)),
    decreases k - j,
{
    lemma_utf8_len_step(text, k - 1);
    if j < k - 1 {
        lemma_utf8_len_strictly_increasing(text, j, k - 1);
    }
}

/// Every character takes at least one byte.
pub proof fn lemma_utf8_len_at_least(text: Seq<char>, k: int)
    requires
        0 <= k <= text.len(),
    ensures
        utf8_len(text.take(k)) >= k,
    decreases k,
{
    if k > 0 {
        lemma_utf8_len_step(text, k - 1);
        lemma_utf8_len_at_least(text, k - 1);
    }
}

/// A byte offset on a boundary names exactly one character offset.
pub proof fn lemma_char_offset_unique(text: Seq<char>, b: int, k: int)
    requires
        offset_pair(text, b, k),
    ensures
        on_char_boundary(text, b),
        char_offset(text, b) == k,
{
    let c = char_offset(text, b);
    assert(offset_pair(text, b, c));
    if c < k {
        lemma_utf8_len_strictly_increasing(text, c, k);
    } else if k < c {
        lemma_utf8_len_strictly_increasing(text, k, c);
    }
}

/// The whole text encodes to its bytes.
proof fn lemma_take_all(text: Seq<char>)
    ensures
        utf8_len(text.take(text.len() as int)) == encode_utf8(text).len(),
        utf8_len(text.take(0)) == 0,
{
    assert(text.take(text.len() as int) =~= text);
    assert(text.take(0) =~= Seq::<char>::empty());
}

/// Width in bytes of the character whose encoding starts with `lead`.
fn utf8_width(lead: u8) -> (w: usize)
    ensures
        w == (if is_leading_byte_width_1(lead) {
            1int
        } else if is_leading_byte_width_2(lead) {
            2int
        } else if is_leading_byte_width_3(lead) {
            3int
        } else {
            4int
        }),
{
    if lead <= 0x7f {
        1
    } else if 0xc0 <= lead && lead <= 0xdf {
        2
    } else if 0xe0 <= lead && lead <= 0xef {
        3
    } else {
        4
    }
}

/// At a character boundary, the byte there tells the width of the next
/// character.
proof fn lemma_width_at(text: Seq<char>, k: int)
    requires
        0 <= k < text.len(),
    ensures
        ({
            let lead = encode_utf8(text)[utf8_len(text.take(k))];
            utf8_len(text.take(k + 1)) == utf8_len(text.take(k)) + (if is_leading_byte_width_1(lead) {
                1int
            } else if is_leading_byte_width_2(lead) {
                2int
            } else if is_leading_byte_width_3(lead) {
                3int
            } else {
                4int
            })
        }),
        utf8_len(text.take(k)) < encode_utf8(text).len(),
{
    let rest = text.skip(k);
    assert(text =~= text.take(k) + rest);
    lemma_encode_concat(text.take(k), rest);
    encode_utf8_first_scalar(rest);
    assert(rest[0] == text[k]);
    lemma_utf8_len_step(text, k);
    lemma_utf8_len_strictly_increasing(text, k, k + 1);
    lemma_prefix_within_encoding(text, k + 1);
    let bytes = encode_utf8(text);
    let i = utf8_len(text.take(k));
    assert(bytes[i] == encode_utf8(rest)[0]);
}

/// A prefix encodes to no more bytes than the whole text.
proof fn lemma_prefix_within_encoding(text: Seq<char>, k: int)
    requires
        0 <= k <= text.len(),
    ensures
        utf8_len(text.take(k)) <= encode_utf8(text).len(),
{
    lemma_take_all(text);
    if k < text.len() {
        lemma_utf8_len_strictly_increasing(text, k, text.len() as int);
    }
}

/// Moves the scan position (`*pos` bytes, `*k` characters) forward to byte
/// offset `target`; returns whether `target` is a character boundary.
fn seek(text: &str, pos: &mut usize, k: &mut usize, target: usize) -> (found: bool)
    requires
        *old(k) <= text@.len(),
        *old(pos) == utf8_len(text@.take(*old(k) as int)),
        *old(pos) <= target,
    ensures
        *old(k) <= *final(k) <= text@.len(),
        *final(pos) == utf8_len(text@.take(*final(k) as int)),
        found <==> on_char_boundary(text@, target as int),
        found ==> *final(pos) == target,
{
    let bytes = text.as_bytes();
    let ghost k0 = *k;
    proof {
        lemma_utf8_len_at_least(text@, k0 as int);
    }
    assert forall|j: int| 0 <= j < k0 implies utf8_len(#[trigger] text@.take(j)) < target by {
        lemma_utf8_len_strictly_increasing(text@, j, k0 as int);
    }
    while *pos < target && *pos < bytes.len()
        invariant
            bytes@ == encode_utf8(text@),
            k0 <= *k <= text@.len(),
            *k <= *pos,
            *pos == utf8_len(text@.take(*k as int)),
            forall|j: int| 0 <= j < *k ==> utf8_len(#[trigger] text@.take(j)) < target,
        decreases bytes.len() - *pos,
    {
        assert(*k < text@.len()) by {
            if *k == text@.len() {
                assert(text@.take(*k as int) =~= text@);
            }
        }
        proof {
            lemma_width_at(text@, *k as int);
            lemma_prefix_within_encoding(text@, *k as int + 1);
        }
        let w = utf8_width(bytes[*pos]);
        *pos = *pos + w;
        *k = *k + 1;
    }
    if *pos == target {
        proof {
            lemma_char_offset_unique(text@, target as int, *k as int);
        }
        true
    } else {
        assert(!on_char_boundary(text@, target as int)) by {
            if on_char_boundary(text@, target as int) {
                let j = choose|j: int| offset_pair(text@, target as int, j);
                if *k < j {
                    lemma_utf8_len_strictly_increasing(text@, *k as int, j);
                    assert(*pos >= bytes.len());
                    lemma_prefix_within_encoding(text@, j);
                } else if j == *k {
                } else {
                    assert(utf8_len(text@.take(j)) < target);
                }
            }
        }
        false
    }
}

/// What is wrong with section `i` of the classifier's output for `text`,
/// checked in this order: its shape and its place after the previous section,
/// its start offset, its end offset, and whether its numbers fit in `u32`.
pub open spec fn section_defect(text: Seq<char>, raw: Seq<RawDetection>, i: int) -> Option<
    DetectionError,
> {
    let d = raw[i];
    if d.start_byte >= d.end_byte || d.word_count == 0 || (i > 0 && d.start_byte < raw[i
        - 1].end_byte) {
        Some(DetectionError::MalformedSection { index: i as usize })
    } else if !on_char_boundary(text, d.start_byte as int) {
        Some(DetectionError::MisalignedOffset { byte_offset: d.start_byte })
    } else if !on_char_boundary(text, d.end_byte as int) {
        Some(DetectionError::MisalignedOffset { byte_offset: d.end_byte })
    } else if char_offset(text, d.end_byte as int) > u32::MAX || d.word_count > u32::MAX {
        Some(DetectionError::CountOverflow { index: i as usize })
    } else {
        None
    }
}

/// No section before `k` has a defect.
pub open spec fn sound_before(text: Seq<char>, raw: Seq<RawDetection>, k: int) -> bool {
    forall|j: int| 0 <= j < k ==> #[trigger] section_defect(text, raw, j) is None
}

/// `s` is section `d` of `text` with its byte offsets turned into character
/// offsets.
pub open spec fn translated(text: Seq<char>, d: RawDetection, s: DetectedLanguage) -> bool {
    &&& s.start_index == char_offset(text, d.start_byte as int)
    &&& s.end_index == char_offset(text, d.end_byte as int)
    &&& s.word_count == d.word_count
    &&& s.language@ == d.language@
}

/// `r` is what `translate_detections` owes for `text` and `raw`: the
/// translated sections when no section is defective, else the defect of the
/// first defective one.
pub open spec fn translation_outcome(
    text: Seq<char>,
    raw: Seq<RawDetection>,
    r: Result<Vec<DetectedLanguage>, DetectionError>,
) -> bool {
    match r {
        Ok(v) => {
            &&& sound_before(text, raw, raw.len() as int)
            &&& v@.len() == raw.len()
            &&& forall|i: int| 0 <= i < v@.len() ==> translated(text, raw[i], #[trigger] v@[i])
            &&& sections_well_formed(text.len() as int, v@)
        },
        Err(e) => exists|k: int|
            0 <= k < raw.len() && sound_before(text, raw, k) && #[trigger] section_defect(
                text,
                raw,
                k,
            ) == Some(e),
    }
}

/// Turns the classifier's byte-addressed sections of `text` into
/// character-addressed ones, in one left-to-right pass over the text.
/// Fails on the first defective section, and returns nothing else then.
pub fn translate_detections(text: &str, raw: &Vec<RawDetection>) -> (r: Result<
    Vec<DetectedLanguage>,
    DetectionError,
>)
    ensures
        translation_outcome(text@, raw@, r),
{
    let mut out: Vec<DetectedLanguage> = Vec::new();
    let mut pos: usize = 0;
    let mut k: usize = 0;
    proof {
        lemma_take_all(text@);
    }
    let mut i: usize = 0;
    while i < raw.len()
        invariant
            i <= raw@.len(),
            out@.len() == i,
            k <= text@.len(),
            pos == utf8_len(text@.take(k as int)),
            i == 0 ==> pos == 0 && k == 0,
            i > 0 ==> pos == raw@[i - 1].end_byte && k == out@[i - 1].end_index,
            sound_before(text@, raw@, i as int),
            forall|j: int| 0 <= j < i ==> translated(text@, raw@[j], #[trigger] out@[j]),
            sections_well_formed(text@.len() as int, out@),
        decreases raw@.len() - i,
    {
        let d = &raw[i];
        if d.start_byte >= d.end_byte || d.word_count == 0 || (i > 0 && d.start_byte
            < raw[i - 1].end_byte) {
            assert(section_defect(text@, raw@, i as int) == Some(DetectionError::MalformedSection { index: i }));
            return Err(DetectionError::MalformedSection { index: i });
        }
        if !seek(text, &mut pos, &mut k, d.start_byte) {
            assert(section_defect(text@, raw@, i as int) == Some(DetectionError::MisalignedOffset { byte_offset: d.start_byte }));
            return Err(DetectionError::MisalignedOffset { byte_offset: d.start_byte });
        }
        let start_k = k;
        if !seek(text, &mut pos, &mut k, d.end_byte) {
            assert(section_defect(text@, raw@, i as int) == Some(DetectionError::MisalignedOffset { byte_offset: d.end_byte }));
            return Err(DetectionError::MisalignedOffset { byte_offset: d.end_byte });
        }
        let end_k = k;
        proof {
            lemma_char_offset_unique(text@, d.start_byte as int, start_k as int);
            lemma_char_offset_unique(text@, d.end_byte as int, end_k as int);
        }
        if end_k > u32::MAX as usize || d.word_count > u32::MAX as usize {
            assert(section_defect(text@, raw@, i as int) == Some(DetectionError::CountOverflow { index: i }));
            return Err(DetectionError::CountOverflow { index: i });
        }
        let section = DetectedLanguage {
            start_index: start_k as u32,
            end_index: end_k as u32,
            word_count: d.word_count as u32,
            language: d.language.clone(),
        };
        out.push(section);
        i = i + 1;
    }
    Ok(out)
}

/// The translation is a function of the text and the classifier's output:
/// two outcomes owed for the same inputs agree, section by section.
pub proof fn lemma_translation_deterministic(
    text: Seq<char>,
    raw: Seq<RawDetection>,
    r1: Result<Vec<DetectedLanguage>, DetectionError>,
    r2: Result<Vec<DetectedLanguage>, DetectionError>,
)
    requires
        translation_outcome(text, raw, r1),
        translation_outcome(text, raw, r2),
    ensures
        r1 is Ok <==> r2 is Ok,
        r1 matches Err(e1) ==> r2 matches Err(e2) && e1 == e2,
        r1 matches Ok(v1) ==> r2 matches Ok(v2) && v1@.len() == v2@.len() && forall|i: int|
            0 <= i < v1@.len() ==> {
                &&& #[trigger] v1@[i].start_index == v2@[i].start_index
                &&& v1@[i].end_index == v2@[i].end_index
                &&& v1@[i].word_count == v2@[i].word_count
                &&& v1@[i].language@ == v2@[i].language@
            },
{
    match (r1, r2) {
        (Ok(v1), Ok(v2)) => {
            assert forall|i: int| 0 <= i < v1@.len() implies {
                &&& #[trigger] v1@[i].start_index == v2@[i].start_index
                &&& v1@[i].end_index == v2@[i].end_index
                &&& v1@[i].word_count == v2@[i].word_count
                &&& v1@[i].language@ == v2@[i].language@
            } by {
                assert(translated(text, raw[i], v1@[i]));
                assert(translated(text, raw[i], v2@[i]));
            }
        },
        (Err(e1), Err(e2)) => {
            let k1 = choose|k: int|
                0 <= k < raw.len() && sound_before(text, raw, k) && #[trigger] section_defect(
                    text,
                    raw,
                    k,
                ) == Some(e1);
            let k2 = choose|k: int|
                0 <= k < raw.len() && sound_before(text, raw, k) && #[trigger] section_defect(
                    text,
                    raw,
                    k,
                ) == Some(e2);
            if k1 < k2 {
                assert(section_defect(text, raw, k1) is None);
            } else if k2 < k1 {
                assert(section_defect(text, raw, k2) is None);
            }
        },
        (Ok(_), Err(e)) => {
            let k = choose|k: int|
                0 <= k < raw.len() && sound_before(text, raw, k) && #[trigger] section_defect(
                    text,
                    raw,
                    k,
                ) == Some(e);
            assert(section_defect(text, raw, k) is None);
        },
        (Err(e), Ok(_)) => {
            let k = choose|k: int|
                0 <= k < raw.len() && sound_before(text, raw, k) && #[trigger] section_defect(
                    text,
                    raw,
                    k,
                ) == Some(e);
            assert(section_defect(text, raw, k) is None);
        },
    }
}

} // verus!
