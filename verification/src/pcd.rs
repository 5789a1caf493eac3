//! Decoding of PCD point-cloud files, binary and ASCII.
//!
//! Binary layout (big-endian): a 36-byte header holding the version 1234,
//! the point count and seven viewpoint numbers, then x, y, z per point as
//! 32-bit floats. Coordinates are returned as the bit patterns of their
//! `f32` values; every binary point gets the grey colour 222, 222, 222.
//!
//! ASCII layout: one point per line, `x y z [intensity r g b]`, fields
//! separated by whitespace; lines with fewer than three fields are skipped.
//! The coordinate texts are returned for the caller to read as floats; the
//! colour fields are read here.

use vstd::prelude::*;
use crate::bytes::be_u32_value;
use crate::decimal::{parse_i32, spec_parse_i32};

verus! {

/// Version number that marks a binary PCD file.
pub const BINARY_MAGIC: i32 = 1234;

/// Size of the binary header in bytes.
pub const BINARY_HEADER_SIZE: usize = 36;

/// Colour component given to points whose file carries none.
pub const DEFAULT_GREY: i32 = 222;

/// Two's-complement reading of four big-endian bytes.
pub open spec fn be_i32_value(b: Seq<u8>, off: int) -> int {
    let u = be_u32_value(b[off], b[off + 1], b[off + 2], b[off + 3]);
    if u >= 0x8000_0000 {
        u - 0x1_0000_0000
    } else {
        u
    }
}

/// Reads a big-endian signed 32-bit integer from the first four bytes.
pub fn bytes_to_i32_be(b: &[u8]) -> (r: i32)
    requires
        b@.len() >= 4,
    ensures
        r == be_i32_value(b@, 0),
{
    let u: u32 = (b[0] as u32) * 16777216 + (b[1] as u32) * 65536 + (b[2] as u32) * 256
        + (b[3] as u32);
    if u < 0x8000_0000 {
        u as i32
    } else {
        ((u - 0x8000_0000) as i32) - 0x7fff_ffff - 1
    }
}

/// Reads the big-endian 32-bit word at `off` (a float's bit pattern).
pub fn bytes_to_u32_be(b: &[u8], off: usize) -> (r: u32)
    requires
        off + 4 <= b@.len(),
    ensures
        r == be_u32_value(b@[off as int], b@[off + 1], b@[off + 2], b@[off + 3]),
{
    (b[off] as u32) * 16777216 + (b[off + 1] as u32) * 65536 + (b[off + 2] as u32) * 256 + (b[off
        + 3] as u32)
}

/// The file is binary: it is long enough for the header and starts with the
/// version number 1234.
pub open spec fn spec_is_binary(data: Seq<u8>) -> bool {
    data.len() >= 36 && be_i32_value(data, 0) == 1234
}

/// Whether a PCD file's bytes are in the binary format.
pub fn is_binary_pcd(data: &[u8]) -> (r: bool)
    ensures
        r == spec_is_binary(data@),
{
    data.len() >= BINARY_HEADER_SIZE && bytes_to_i32_be(data) == BINARY_MAGIC
}

/// Decoded points: coordinate bit patterns and colours, as flat triples.
pub struct RawCloud {
    pub position_bits: Vec<u32>,
    pub colors: Vec<i32>,
    pub is_binary: bool,
}

/// The point count stored in a binary header.
pub open spec fn header_point_count(data: Seq<u8>) -> int {
    be_i32_value(data, 4)
}

/// Number of points decoded from a binary file: the header's count, cut
/// short where the data ends.
pub open spec fn binary_point_count(data: Seq<u8>) -> int {
    let avail = (data.len() - 36) / 12;
    if header_point_count(data) < avail {
        header_point_count(data)
    } else {
        avail
    }
}

/// Coordinate `c` of point `i` of a binary file.
pub open spec fn binary_coord(data: Seq<u8>, i: int, c: int) -> u32 {
    let off = 36 + 12 * i + 4 * c;
    be_u32_value(data[off], data[off + 1], data[off + 2], data[off + 3]) as u32
}

/// The big-endian 32-bit word at byte `off`.
pub open spec fn be_word_at(data: Seq<u8>, off: int) -> u32 {
    be_u32_value(data[off], data[off + 1], data[off + 2], data[off + 3]) as u32
}

/// Coordinate `c` of point `i` in a flat array of xyz triples.
pub open spec fn coord_of(bits: Seq<u32>, i: int, c: int) -> u32 {
    bits[3 * i + c]
}

/// Index `3 * i + c` of a flat triple array is coordinate `c` of point `i`.
proof fn lemma_triple_index(i: int, c: int)
    requires
        0 <= i,
        0 <= c < 3,
    ensures
        (3 * i + c) / 3 == i,
        (3 * i + c) % 3 == c,
{
    assert((3 * i + c) / 3 == i) by (nonlinear_arith)
        requires
            0 <= i,
            0 <= c < 3,
    ;
    assert((3 * i + c) % 3 == c) by (nonlinear_arith)
        requires
            0 <= i,
            0 <= c < 3,
    ;
}

/// Layout law of binary files: the decoded points are consecutive 12-byte
/// records right after the 36-byte header, all within the data, and
/// coordinate `c` of point `i` is the big-endian word at byte
/// `36 + 12 * i + 4 * c`. As many points are decoded as the header's count
/// says, unless fewer whole records follow the header.
pub proof fn lemma_binary_layout(data: Seq<u8>)
    requires
        data.len() >= 36,
        header_point_count(data) >= 0,
    ensures
        0 <= binary_point_count(data) <= header_point_count(data),
        36 + 12 * binary_point_count(data) <= data.len(),
        binary_point_count(data) < header_point_count(data) ==> data.len() < 36 + 12 * (
        binary_point_count(data) + 1),
        forall|i: int, c: int|
            0 <= i < binary_point_count(data) && 0 <= c < 3 ==> #[trigger] binary_coord(data, i, c)
                == be_word_at(data, 36 + 12 * i + 4 * c),
{
    let avail = (data.len() - 36) / 12;
    assert(36 + 12 * avail <= data.len() < 36 + 12 * (avail + 1)) by (nonlinear_arith)
        requires
            avail == (data.len() - 36) / 12,
            data.len() >= 36,
    ;
}

/// Decodes the points of a binary PCD file. The header's point count must
/// not be negative.
pub fn decode_binary(data: &[u8]) -> (r: RawCloud)
    requires
        data@.len() >= 36,
        header_point_count(data@) >= 0,
    ensures
        r.is_binary,
        r.position_bits@.len() == 3 * binary_point_count(data@),
        r.colors@.len() == 3 * binary_point_count(data@),
        forall|k: int|
            0 <= k < r.position_bits@.len() ==> #[trigger] r.position_bits@[k] == binary_coord(
                data@,
                k / 3,
                k % 3,
            ),
        forall|k: int| 0 <= k < r.colors@.len() ==> #[trigger] r.colors@[k] == DEFAULT_GREY,
        forall|i: int, c: int|
            0 <= i < binary_point_count(data@) && 0 <= c < 3 ==> #[trigger] coord_of(
                r.position_bits@,
                i,
                c,
            ) == be_word_at(data@, 36 + 12 * i + 4 * c),
{
    let num_points = bytes_to_i32_be(&data[4..8]);
    let len = data.len();
    let mut positions: Vec<u32> = Vec::new();
    let mut colors: Vec<i32> = Vec::new();
    let mut i: usize = 0;
    let ghost count = binary_point_count(data@);
    while (i as u64) < (num_points as u64)
        invariant
            len == data@.len(),
            len >= 36,
            num_points == header_point_count(data@),
            num_points >= 0,
            count == binary_point_count(data@),
            0 <= i <= count,
            positions@.len() == 3 * i,
            colors@.len() == 3 * i,
            forall|k: int|
                0 <= k < positions@.len() ==> #[trigger] positions@[k] == binary_coord(
                    data@,
                    k / 3,
                    k % 3,
                ),
            forall|k: int| 0 <= k < colors@.len() ==> #[trigger] colors@[k] == DEFAULT_GREY,
        ensures
            i == count,
            positions@.len() == 3 * i,
            colors@.len() == 3 * i,
            forall|k: int|
                0 <= k < positions@.len() ==> #[trigger] positions@[k] == binary_coord(
                    data@,
                    k / 3,
                    k % 3,
                ),
            forall|k: int| 0 <= k < colors@.len() ==> #[trigger] colors@[k] == DEFAULT_GREY,
        decreases num_points - i,
    {
        if i > (len - 36) / 12 || (len - 36) / 12 - i < 1 {
            break;
        }
        let off = 36 + 12 * i;
        let x = bytes_to_u32_be(data, off);
        let y = bytes_to_u32_be(data, off + 4);
        let z = bytes_to_u32_be(data, off + 8);
        let ghost before = positions@;
        positions.push(x);
        positions.push(y);
        positions.push(z);
        colors.push(DEFAULT_GREY);
        colors.push(DEFAULT_GREY);
        colors.push(DEFAULT_GREY);
        proof {
            assert forall|k: int| 0 <= k < positions@.len() implies #[trigger] positions@[k]
                == binary_coord(data@, k / 3, k % 3) by {
                if k >= 3 * i {
                    assert(k / 3 == i) by (nonlinear_arith)
                        requires
                            3 * i <= k < 3 * i + 3,
                    ;
                    assert(k % 3 == k - 3 * i) by (nonlinear_arith)
                        requires
                            3 * i <= k < 3 * i + 3,
                    ;
                } else {
                    assert(positions@[k] == before[k]);
                }
            }
        }
        i = i + 1;
    }
    proof {
        assert forall|i: int, c: int|
            0 <= i < count && 0 <= c < 3 implies #[trigger] coord_of(positions@, i, c) == be_word_at(
            data@,
            36 + 12 * i + 4 * c,
        ) by {
            lemma_triple_index(i, c);
            assert(3 * i + c < 3 * count);
            assert(positions@[3 * i + c] == binary_coord(data@, (3 * i + c) / 3, (3 * i + c) % 3));
        }
    }
    RawCloud { position_bits: positions, colors, is_binary: true }
}

/// Unicode white space, as `char::is_whitespace` defines it.
pub open spec fn is_whitespace(c: char) -> bool {
    ||| c == '\t'
    ||| c == '\n'
    ||| c == '\u{0B}'
    ||| c == '\u{0C}'
    ||| c == '\r'
    ||| c == ' '
    ||| c == '\u{85}'
    ||| c == '\u{A0}'
    ||| c == '\u{1680}'
    ||| ('\u{2000}' <= c && c <= '\u{200A}')
    ||| c == '\u{2028}'
    ||| c == '\u{2029}'
    ||| c == '\u{202F}'
    ||| c == '\u{205F}'
    ||| c == '\u{3000}'
}

/// Whether `c` is white space.
pub fn is_whitespace_char(c: char) -> (r: bool)
    ensures
        r == is_whitespace(c),
{
    c == '\t' || c == '\n' || c == '\u{0B}' || c == '\u{0C}' || c == '\r' || c == ' ' || c
        == '\u{85}' || c == '\u{A0}' || c == '\u{1680}' || ('\u{2000}' <= c && c <= '\u{200A}')
        || c == '\u{2028}' || c == '\u{2029}' || c == '\u{202F}' || c == '\u{205F}' || c
        == '\u{3000}'
}

/// The maximal runs of non-white-space characters of `s`, in order.
pub open spec fn words(s: Seq<char>) -> Seq<Seq<char>>
    decreases s.len(),
{
    if s.len() == 0 {
        Seq::empty()
    } else {
        let w = words(s.drop_last());
        let c = s.last();
        if is_whitespace(c) {
            w
        } else if s.len() == 1 || is_whitespace(s[s.len() - 2]) {
            w.push(seq![c])
        } else {
            w.update(w.len() - 1, w.last().push(c))
        }
    }
}

/// `s` split at every line feed; there is always at least one segment.
pub open spec fn segments(t: Seq<char>) -> Seq<Seq<char>>
    decreases t.len(),
{
    if t.len() == 0 {
        seq![Seq::empty()]
    } else {
        let s = segments(t.drop_last());
        if t.last() == '\n' {
            s.push(Seq::empty())
        } else {
            s.update(s.len() - 1, s.last().push(t.last()))
        }
    }
}

/// The fields of the lines among `segs` that have at least three fields.
pub open spec fn point_records(segs: Seq<Seq<char>>) -> Seq<Seq<Seq<char>>>
    decreases segs.len(),
{
    if segs.len() == 0 {
        Seq::empty()
    } else {
        let r = point_records(segs.drop_last());
        if words(segs.last()).len() >= 3 {
            r.push(words(segs.last()))
        } else {
            r
        }
    }
}

/// The point lines of an ASCII PCD text: the fields of each line that has
/// at least three of them.
pub open spec fn point_lines(text: Seq<char>) -> Seq<Seq<Seq<char>>> {
    point_records(segments(text))
}

pub proof fn lemma_segments_nonempty(t: Seq<char>)
    ensures
        segments(t).len() >= 1,
    decreases t.len(),
{
    if t.len() > 0 {
        lemma_segments_nonempty(t.drop_last());
    }
}

/// Splits an ASCII PCD text into the fields of its point lines.
pub fn split_point_lines(text: &Vec<char>) -> (r: Vec<Vec<Vec<char>>>)
    ensures
        r.deep_view() == point_lines(text@),
{
    let n = text.len();
    let mut records: Vec<Vec<Vec<char>>> = Vec::new();
    let mut line_words: Vec<Vec<char>> = Vec::new();
    let mut cur: Vec<char> = Vec::new();
    let mut i: usize = 0;
    assert(text@.subrange(0, 0) =~= Seq::<char>::empty());
    assert(records.deep_view() =~= Seq::<Seq<Seq<char>>>::empty());
    assert(line_words.deep_view() =~= Seq::<Seq<char>>::empty());
    while i < n
        invariant
            n == text@.len(),
            i <= n,
            records.deep_view() == point_records(segments(text@.subrange(0, i as int)).drop_last()),
            words(segments(text@.subrange(0, i as int)).last()) == if cur@.len() > 0 {
                line_words.deep_view().push(cur@)
            } else {
                line_words.deep_view()
            },
            cur@.len() > 0 ==> segments(text@.subrange(0, i as int)).last().len() > 0
                && !is_whitespace(segments(text@.subrange(0, i as int)).last().last()),
            cur@.len() == 0 ==> (segments(text@.subrange(0, i as int)).last().len() == 0
                || is_whitespace(segments(text@.subrange(0, i as int)).last().last())),
        decreases n - i,
    {
        let ghost pre = text@.subrange(0, i as int);
        let ghost segs = segments(pre);
        let ghost line = segs.last();
        let ghost next = text@.subrange(0, i + 1);
        proof {
            lemma_segments_nonempty(pre);
            assert(next.drop_last() =~= pre);
            assert(next.last() == text@[i as int]);
        }
        let c = text[i];
        if c == '\n' {
            let ghost lw0 = line_words.deep_view();
            let ghost cv = cur@;
            if cur.len() > 0 {
                line_words.push(cur);
                cur = Vec::new();
                assert(line_words.deep_view() =~~= lw0.push(cv));
            }
            let ghost lw = line_words.deep_view();
            assert(lw =~= words(line));
            let ghost recs0 = records.deep_view();
            if line_words.len() >= 3 {
                records.push(line_words);
                assert(records.deep_view() =~= recs0.push(lw));
            }
            line_words = Vec::new();
            proof {
                assert(segments(next) == segs.push(Seq::empty()));
                assert(segments(next).drop_last() =~= segs);
                assert(segs =~= segs.drop_last().push(line));
                assert(records.deep_view() =~= point_records(segs));
                assert(line_words.deep_view() =~= Seq::<Seq<char>>::empty());
            }
        } else if is_whitespace_char(c) {
            let ghost lw0 = line_words.deep_view();
            let ghost cv = cur@;
            if cur.len() > 0 {
                line_words.push(cur);
                cur = Vec::new();
                assert(line_words.deep_view() =~~= lw0.push(cv));
            }
            proof {
                let nl = line.push(c);
                assert(segments(next) == segs.update(segs.len() - 1, nl));
                assert(segments(next).drop_last() =~= segs.drop_last());
                assert(nl.drop_last() =~= line);
                assert(words(nl) == words(line));
                assert(line_words.deep_view() =~= words(line));
            }
        } else {
            let ghost old_lw = line_words.deep_view();
            let ghost old_cur = cur@;
            cur.push(c);
            proof {
                let nl = line.push(c);
                assert(segments(next) == segs.update(segs.len() - 1, nl));
                assert(segments(next).drop_last() =~= segs.drop_last());
                assert(nl.drop_last() =~= line);
                if old_cur.len() > 0 {
                    assert(nl[nl.len() - 2] == line.last());
                    assert(words(nl) == words(line).update(
                        words(line).len() - 1,
                        words(line).last().push(c),
                    ));
                    assert(words(nl) =~= old_lw.push(cur@));
                } else {
                    assert(old_cur =~= Seq::<char>::empty());
                    if line.len() > 0 {
                        assert(nl[nl.len() - 2] == line.last());
                    }
                    assert(words(nl) =~= old_lw.push(cur@));
                }
            }
        }
        i = i + 1;
    }
    proof {
        assert(text@.subrange(0, n as int) =~= text@);
        lemma_segments_nonempty(text@);
    }
    let ghost lw0 = line_words.deep_view();
    let ghost cv = cur@;
    if cur.len() > 0 {
        line_words.push(cur);
        assert(line_words.deep_view() =~~= lw0.push(cv));
    }
    let ghost segs = segments(text@);
    let ghost lw = line_words.deep_view();
    assert(lw =~= words(segs.last()));
    let ghost recs0 = records.deep_view();
    if line_words.len() >= 3 {
        records.push(line_words);
        assert(records.deep_view() =~= recs0.push(lw));
    }
    assert(segs =~= segs.drop_last().push(segs.last()));
    assert(records.deep_view() =~= point_records(segs));
    records
}

/// The colour component read from a field: its integer value, or the grey
/// default when it is not an `i32`.
pub open spec fn color_component(field: Seq<char>) -> i32 {
    match spec_parse_i32(field) {
        Ok(v) => v,
        Err(_) => DEFAULT_GREY,
    }
}

/// The colour of a point line: fields 4, 5 and 6 (after the intensity in
/// field 3) when the line has at least seven fields, grey otherwise.
pub open spec fn spec_line_color(fields: Seq<Seq<char>>) -> (i32, i32, i32) {
    if fields.len() >= 7 {
        (color_component(fields[4]), color_component(fields[5]), color_component(fields[6]))
    } else {
        (DEFAULT_GREY, DEFAULT_GREY, DEFAULT_GREY)
    }
}

fn read_color_component(field: &Vec<char>) -> (r: i32)
    ensures
        r == color_component(field@),
{
    match parse_i32(field) {
        Ok(v) => v,
        Err(_) => DEFAULT_GREY,
    }
}

/// The colour of a point line.
pub fn line_color(fields: &Vec<Vec<char>>) -> (r: (i32, i32, i32))
    ensures
        r == spec_line_color(fields.deep_view()),
{
    if fields.len() >= 7 {
        assert(fields.deep_view()[4] =~= fields@[4]@);
        assert(fields.deep_view()[5] =~= fields@[5]@);
        assert(fields.deep_view()[6] =~= fields@[6]@);
        (
            read_color_component(&fields[4]),
            read_color_component(&fields[5]),
            read_color_component(&fields[6]),
        )
    } else {
        (DEFAULT_GREY, DEFAULT_GREY, DEFAULT_GREY)
    }
}

/// The colour triple of point `i`: its own when the cloud has one colour
/// triple per coordinate triple, the fallback otherwise.
pub open spec fn spec_point_color(colors: Seq<i32>, positions_len: nat, i: int, fallback: i32) -> Seq<
    i32,
> {
    if colors.len() == positions_len {
        seq![colors[3 * i], colors[3 * i + 1], colors[3 * i + 2]]
    } else {
        seq![fallback, fallback, fallback]
    }
}

/// The colours of the listed points, as flat triples in list order.
pub open spec fn spec_point_colors(
    colors: Seq<i32>,
    positions_len: nat,
    points: Seq<usize>,
    fallback: i32,
) -> Seq<i32>
    decreases points.len(),
{
    if points.len() == 0 {
        Seq::empty()
    } else {
        spec_point_colors(colors, positions_len, points.drop_last(), fallback) + spec_point_color(
            colors,
            positions_len,
            points.last() as int,
            fallback,
        )
    }
}

/// The colours of the listed points of a cloud with `positions_len`
/// coordinates: each point's own colour when the cloud carries one colour
/// per coordinate, `fallback` for every point otherwise.
pub fn point_colors(colors: &Vec<i32>, positions_len: usize, points: &Vec<usize>, fallback: i32) -> (r:
    Vec<i32>)
    requires
        forall|k: int| 0 <= k < points@.len() ==> 3 * #[trigger] points@[k] + 2 < positions_len,
    ensures
        r@ == spec_point_colors(colors@, positions_len as nat, points@, fallback),
{
    let has_colors = colors.len() == positions_len;
    let mut out: Vec<i32> = Vec::new();
    let mut k: usize = 0;
    assert(points@.subrange(0, 0) =~= Seq::<usize>::empty());
    while k < points.len()
        invariant
            k <= points@.len(),
            has_colors == (colors@.len() == positions_len),
            forall|j: int| 0 <= j < points@.len() ==> 3 * #[trigger] points@[j] + 2 < positions_len,
            out@ == spec_point_colors(colors@, positions_len as nat, points@.subrange(0, k as int), fallback),
        decreases points.len() - k,
    {
        let i = points[k];
        let ghost before = out@;
        assert(3 * points@[k as int] + 2 < positions_len);
        if has_colors {
            out.push(colors[3 * i]);
            out.push(colors[3 * i + 1]);
            out.push(colors[3 * i + 2]);
        } else {
            out.push(fallback);
            out.push(fallback);
            out.push(fallback);
        }
        proof {
            let next = points@.subrange(0, k + 1);
            assert(next.drop_last() =~= points@.subrange(0, k as int));
            assert(next.last() == i);
            assert(out@ =~= before + spec_point_color(colors@, positions_len as nat, i as int, fallback));
        }
        k = k + 1;
    }
    assert(points@.subrange(0, points@.len() as int) =~= points@);
    out
}

} // verus!
