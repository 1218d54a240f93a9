//! Escaping of text and of URLs for HTML output, on bytes.
//!
//! Every byte of the input stands for itself or is replaced by a short ASCII
//! sequence, so the output of each function here is the concatenation of what
//! its input bytes stand for, in order.
use vstd::prelude::*;
use vstd::slice::*;
use vstd::string::*;

verus! {

/// For each byte, the index into [`HTML_ESCAPES`] of what replaces it; 0 for a
/// byte that passes through.
pub const HTML_ESCAPE_TABLE: [u8; 256] = [
    0, 0, 0, 0, 0, 0, 0, 0, 0, 0, 0, 0, 0, 0, 0, 0,
    0, 0, 0, 0, 0, 0, 0, 0, 0, 0, 0, 0, 0, 0, 0, 0,
    0, 0, 1, 0, 0, 0, 2, 0, 0, 0, 0, 0, 0, 0, 0, 0,
    0, 0, 0, 0, 0, 0, 0, 0, 0, 0, 0, 0, 3, 0, 4, 0,
    0, 0, 0, 0, 0, 0, 0, 0, 0, 0, 0, 0, 0, 0, 0, 0,
    0, 0, 0, 0, 0, 0, 0, 0, 0, 0, 0, 0, 0, 0, 0, 0,
    0, 0, 0, 0, 0, 0, 0, 0, 0, 0, 0, 0, 0, 0, 0, 0,
    0, 0, 0, 0, 0, 0, 0, 0, 0, 0, 0, 0, 0, 0, 0, 0,
    0, 0, 0, 0, 0, 0, 0, 0, 0, 0, 0, 0, 0, 0, 0, 0,
    0, 0, 0, 0, 0, 0, 0, 0, 0, 0, 0, 0, 0, 0, 0, 0,
    0, 0, 0, 0, 0, 0, 0, 0, 0, 0, 0, 0, 0, 0, 0, 0,
    0, 0, 0, 0, 0, 0, 0, 0, 0, 0, 0, 0, 0, 0, 0, 0,
    0, 0, 0, 0, 0, 0, 0, 0, 0, 0, 0, 0, 0, 0, 0, 0,
    0, 0, 0, 0, 0, 0, 0, 0, 0, 0, 0, 0, 0, 0, 0, 0,
    0, 0, 0, 0, 0, 0, 0, 0, 0, 0, 0, 0, 0, 0, 0, 0,
    0, 0, 0, 0, 0, 0, 0, 0, 0, 0, 0, 0, 0, 0, 0, 0,
];

/// The replacements of the four reserved bytes, at the indices that
/// [`HTML_ESCAPE_TABLE`] gives.
pub const HTML_ESCAPES: [&'static str; 5] = ["", "&quot;", "&amp;", "&lt;", "&gt;"];

/// For each ASCII byte, 1 where it may stand in an `href` as it is.
pub const HREF_SAFE: [u8; 128] = [
    0, 0, 0, 0, 0, 0, 0, 0, 0, 0, 0, 0, 0, 0, 0, 0,
    0, 0, 0, 0, 0, 0, 0, 0, 0, 0, 0, 0, 0, 0, 0, 0,
    0, 1, 0, 1, 1, 1, 0, 0, 1, 1, 1, 1, 1, 1, 1, 1,
    1, 1, 1, 1, 1, 1, 1, 1, 1, 1, 1, 1, 0, 1, 0, 1,
    1, 1, 1, 1, 1, 1, 1, 1, 1, 1, 1, 1, 1, 1, 1, 1,
    1, 1, 1, 1, 1, 1, 1, 1, 1, 1, 1, 0, 0, 0, 1, 1,
    0, 1, 1, 1, 1, 1, 1, 1, 1, 1, 1, 1, 1, 1, 1, 1,
    1, 1, 1, 1, 1, 1, 1, 1, 1, 1, 1, 0, 0, 0, 1, 0,
];

/// The digits of a percent escape.
pub const HEX_CHARS: [u8; 16] = [
    0x30, 0x31, 0x32, 0x33, 0x34, 0x35, 0x36, 0x37, 0x38, 0x39, 0x41, 0x42, 0x43, 0x44, 0x45, 0x46,
];

pub const AMP_ESCAPE: &'static str = "&amp;";

pub const SINGLE_QUOTE_ESCAPE: &'static str = "&#x27;";

/// The byte `"`.
pub const QUOTE: u8 = 0x22;

/// The byte `&`.
pub const AMPERSAND: u8 = 0x26;

/// The byte `'`.
pub const APOSTROPHE: u8 = 0x27;

/// The byte `<`.
pub const LESS_THAN: u8 = 0x3c;

/// The byte `>`.
pub const GREATER_THAN: u8 = 0x3e;

/// The byte `%`.
pub const PERCENT: u8 = 0x25;

/// The bytes of an ASCII string, one per character.
pub open spec fn ascii_bytes(s: Seq<char>) -> Seq<u8> {
    Seq::new(s.len(), |i: int| s[i] as u8)
}

/// Whether `c` is one of the four bytes `"`, `&`, `<`, `>`.
pub open spec fn is_html_special(c: u8) -> bool {
    c == QUOTE || c == AMPERSAND || c == LESS_THAN || c == GREATER_THAN
}

/// The index of the entity that replaces `c`, 0 where `c` passes through.
pub open spec fn html_escape_index(c: u8) -> u8 {
    if c == QUOTE {
        1
    } else if c == AMPERSAND {
        2
    } else if c == LESS_THAN {
        3
    } else if c == GREATER_THAN {
        4
    } else {
        0
    }
}

/// The entity with the given index, as bytes.
pub open spec fn html_escape_seq(index: u8) -> Seq<u8> {
    if index == 1 {
        ascii_bytes("&quot;"@)
    } else if index == 2 {
        ascii_bytes("&amp;"@)
    } else if index == 3 {
        ascii_bytes("&lt;"@)
    } else if index == 4 {
        ascii_bytes("&gt;"@)
    } else {
        Seq::empty()
    }
}

/// What one byte stands for in escaped HTML text.
pub open spec fn html_escaped_byte(c: u8) -> Seq<u8> {
    if is_html_special(c) {
        html_escape_seq(html_escape_index(c))
    } else {
        seq![c]
    }
}

/// The HTML escaping of a byte string: each byte replaced by what it stands for.
pub open spec fn html_escaped(s: Seq<u8>) -> Seq<u8>
    decreases s.len(),
{
    if s.len() == 0 {
        Seq::empty()
    } else {
        html_escaped(s.drop_last()) + html_escaped_byte(s.last())
    }
}

/// How often `c` occurs in `s`.
pub open spec fn count_byte(s: Seq<u8>, c: u8) -> nat
    decreases s.len(),
{
    if s.len() == 0 {
        0
    } else {
        count_byte(s.drop_last(), c) + if s.last() == c {
            1nat
        } else {
            0nat
        }
    }
}

/// Whether no byte of `s` is one of the four reserved ones.
pub open spec fn html_plain(s: Seq<u8>) -> bool {
    forall|i: int| 0 <= i < s.len() ==> !is_html_special(#[trigger] s[i])
}

/// The four entities, byte by byte.
pub proof fn lemma_html_entities()
    ensures
        html_escape_seq(1) =~= seq![0x26u8, 0x71, 0x75, 0x6f, 0x74, 0x3b],
        html_escape_seq(2) =~= seq![0x26u8, 0x61, 0x6d, 0x70, 0x3b],
        html_escape_seq(3) =~= seq![0x26u8, 0x6c, 0x74, 0x3b],
        html_escape_seq(4) =~= seq![0x26u8, 0x67, 0x74, 0x3b],
{
    reveal_strlit("&quot;");
    reveal_strlit("&amp;");
    reveal_strlit("&lt;");
    reveal_strlit("&gt;");
}

/// No two bytes stand for the same: the four entities differ from each other
/// and from every single byte.
pub proof fn lemma_html_escaped_byte_injective(a: u8, b: u8)
    requires
        html_escaped_byte(a) == html_escaped_byte(b),
    ensures
        a == b,
{
    lemma_html_entities();
    let i = html_escape_index(a);
    let j = html_escape_index(b);
    assert(html_escape_seq(1).len() == 6 && html_escape_seq(2).len() == 5);
    assert(html_escape_seq(3).len() == 4 && html_escape_seq(4).len() == 4);
    assert(html_escape_seq(3)[1] == 0x6c && html_escape_seq(4)[1] == 0x67);
    assert(seq![a].len() == 1 && seq![b].len() == 1);
    if is_html_special(a) && is_html_special(b) {
        assert(html_escape_seq(i) == html_escape_seq(j));
        assert(i == j);
    } else if !is_html_special(a) && !is_html_special(b) {
        assert(seq![a][0] == seq![b][0]);
    }
}

/// Escaping goes through a concatenation.
pub proof fn lemma_html_escaped_concat(a: Seq<u8>, b: Seq<u8>)
    ensures
        html_escaped(a + b) == html_escaped(a) + html_escaped(b),
    decreases b.len(),
{
    if b.len() == 0 {
        assert(a + b =~= a);
        assert(html_escaped(a) + html_escaped(b) =~= html_escaped(a));
    } else {
        lemma_html_escaped_concat(a, b.drop_last());
        assert((a + b).drop_last() =~= a + b.drop_last());
        assert((a + b).last() == b.last());
        assert(html_escaped(a + b) =~= html_escaped(a) + html_escaped(b));
    }
}

/// A string without reserved bytes is its own escaping.
pub proof fn lemma_html_escaped_plain(s: Seq<u8>)
    requires
        html_plain(s),
    ensures
        html_escaped(s) == s,
    decreases s.len(),
{
    if s.len() > 0 {
        lemma_html_escaped_plain(s.drop_last());
        assert(html_escaped(s) =~= s);
    } else {
        assert(html_escaped(s) =~= s);
    }
}

/// The escaped string is as long as the string and what the replacements add:
/// five bytes for each `"`, four for each `&`, three for each `<` and each `>`.
pub proof fn lemma_html_escaped_len(s: Seq<u8>)
    ensures
        html_escaped(s).len() == s.len() + 5 * count_byte(s, QUOTE) + 4 * count_byte(s, AMPERSAND)
            + 3 * count_byte(s, LESS_THAN) + 3 * count_byte(s, GREATER_THAN),
        html_escaped(s).len() >= s.len(),
    decreases s.len(),
{
    if s.len() > 0 {
        lemma_html_escaped_len(s.drop_last());
        lemma_html_entities();
    }
}

/// For a string without `&`, the escaped string is as long as the string and
/// three bytes for each `<` and each `>` and five for each `"`.
pub proof fn lemma_html_escaped_len_without_ampersand(s: Seq<u8>)
    requires
        count_byte(s, AMPERSAND) == 0,
    ensures
        html_escaped(s).len() == s.len() + 3 * count_byte(s, AMPERSAND) + 3 * count_byte(
            s,
            LESS_THAN,
        ) + 3 * count_byte(s, GREATER_THAN) + 5 * count_byte(s, QUOTE),
{
    lemma_html_escaped_len(s);
}

/// Whether one of the four entities stands in `out` at `i`.
pub open spec fn entity_at(out: Seq<u8>, i: int) -> bool {
    exists|index: u8|
        1 <= index <= 4 && i + (#[trigger] html_escape_seq(index)).len() <= out.len()
            && out.subrange(i, i + html_escape_seq(index).len()) == html_escape_seq(index)
}

/// An escaped string holds none of `"`, `<` and `>`, and each `&` in it starts
/// one of the four entities.
pub proof fn lemma_html_escaped_safe(s: Seq<u8>)
    ensures
        forall|i: int|
            0 <= i < html_escaped(s).len() ==> {
                let c = #[trigger] html_escaped(s)[i];
                &&& c != QUOTE
                &&& c != LESS_THAN
                &&& c != GREATER_THAN
                &&& c == AMPERSAND ==> entity_at(html_escaped(s), i)
            },
    decreases s.len(),
{
    if s.len() > 0 {
        lemma_html_escaped_safe(s.drop_last());
        lemma_html_entities();
        let front = html_escaped(s.drop_last());
        let piece = html_escaped_byte(s.last());
        let out = html_escaped(s);
        assert forall|i: int| 0 <= i < out.len() implies ({
            let c = #[trigger] out[i];
            &&& c != QUOTE
            &&& c != LESS_THAN
            &&& c != GREATER_THAN
            &&& c == AMPERSAND ==> entity_at(out, i)
        }) by {
            if i < front.len() {
                assert(out[i] == front[i]);
                if front[i] == AMPERSAND {
                    assert(entity_at(front, i));
                    let index = choose|index: u8|
                        1 <= index <= 4 && i + (#[trigger] html_escape_seq(index)).len()
                            <= front.len() && front.subrange(i, i + html_escape_seq(index).len())
                            == html_escape_seq(index);
                    let len = html_escape_seq(index).len();
                    assert(out.subrange(i, i + len) =~= front.subrange(i, i + len));
                }
            } else {
                assert(out[i] == piece[i - front.len()]);
                if out[i] == AMPERSAND {
                    let index = html_escape_index(s.last());
                    assert(i == front.len());
                    assert(out.subrange(i, i + piece.len()) =~= piece);
                    assert(piece == html_escape_seq(index));
                }
            }
        }
    }
}

/// The bytes of an ASCII string, one per character.
pub fn literal_bytes(s: &'static str) -> (r: &'static [u8])
    requires
        is_ascii(s),
    ensures
        r@ == ascii_bytes(s@),
{
    proof {
        is_ascii_spec_bytes(s);
    }
    s.as_bytes()
}

/// The bytes that replace the reserved byte `c`, by the two tables.
pub fn html_replacement(c: u8) -> (r: &'static [u8])
    requires
        is_html_special(c),
    ensures
        r@ == html_escaped_byte(c),
{
    let escape = HTML_ESCAPE_TABLE[c as usize];
    let escape_seq = HTML_ESCAPES[escape as usize];
    proof {
        reveal_strlit("&quot;");
        reveal_strlit("&amp;");
        reveal_strlit("&lt;");
        reveal_strlit("&gt;");
    }
    literal_bytes(escape_seq)
}

/// Builds the table that [`HTML_ESCAPE_TABLE`] holds.
pub fn create_html_escape_table() -> (table: [u8; 256])
    ensures
        forall|c: u8| #[trigger] table[c as int] == html_escape_index(c),
        table@ =~= HTML_ESCAPE_TABLE@,
{
    let mut table = [0u8; 256];
    table[QUOTE as usize] = 1;
    table[AMPERSAND as usize] = 2;
    table[LESS_THAN as usize] = 3;
    table[GREATER_THAN as usize] = 4;
    table
}

/// The position of the first reserved byte of `bytes` at or after `from`.
fn next_special(bytes: &[u8], from: usize) -> (r: Option<usize>)
    requires
        from <= bytes@.len(),
    ensures
        match r {
            Some(i) => from <= i < bytes@.len() && is_html_special(bytes@[i as int]) && html_plain(
                bytes@.subrange(from as int, i as int),
            ),
            None => html_plain(bytes@.subrange(from as int, bytes@.len() as int)),
        },
{
    let mut i: usize = from;
    while i < bytes.len()
        invariant
            from <= i <= bytes@.len(),
            html_plain(bytes@.subrange(from as int, i as int)),
        decreases bytes@.len() - i,
    {
        if HTML_ESCAPE_TABLE[bytes[i] as usize] != 0 {
            return Some(i);
        }
        i += 1;
    }
    None
}

/// Appends to `w` the HTML escaping of `s`, found by one scan from left to
/// right: the bytes up to the next reserved one are copied, the reserved one is
/// replaced, and so on.
pub fn escape_html_scalar(w: &mut Vec<u8>, s: &[u8])
    ensures
        final(w)@ == old(w)@ + html_escaped(s@),
{
    let mut mark: usize = 0;
    let mut i: usize = 0;
    while i < s.len()
        invariant
            mark <= i <= s@.len(),
            w@ == old(w)@ + html_escaped(s@.subrange(0, mark as int)),
            html_plain(s@.subrange(mark as int, i as int)),
        decreases s@.len() - i,
    {
        let found = next_special(s, i);
        let next: usize = match found {
            Some(pos) => pos,
            None => s.len(),
        };
        proof {
            let run = s@.subrange(mark as int, next as int);
            assert forall|j: int| 0 <= j < run.len() implies !is_html_special(#[trigger] run[j]) by {
                if mark + j < i {
                    assert(run[j] == s@.subrange(mark as int, i as int)[j]);
                } else {
                    assert(run[j] == s@.subrange(i as int, next as int)[mark + j - i]);
                }
            }
        }
        i = next;
        if found.is_some() {
            proof {
                let done = s@.subrange(0, mark as int);
                let run = s@.subrange(mark as int, i as int);
                lemma_html_escaped_plain(run);
                lemma_html_escaped_concat(done, run);
                assert(done + run =~= s@.subrange(0, i as int));
                assert(s@.subrange(0, i + 1).drop_last() =~= s@.subrange(0, i as int));
            }
            extend(w, slice_subrange(s, mark, i));
            extend(w, html_replacement(s[i]));
            i += 1;
            mark = i;
        }
    }
    proof {
        let done = s@.subrange(0, mark as int);
        let run = s@.subrange(mark as int, s@.len() as int);
        lemma_html_escaped_plain(run);
        lemma_html_escaped_concat(done, run);
        assert(done + run =~= s@);
    }
    extend(w, slice_subrange(s, mark, s.len()));
}

/// Whether `c` may stand in an `href` as it is: a letter, a digit, or one of
/// `! # $ % ( ) * + , - . / : ; = ? @ ^ _ ~`.
pub open spec fn is_href_safe(c: u8) -> bool {
    ||| 0x30 <= c <= 0x3b
    ||| 0x40 <= c <= 0x5a
    ||| 0x61 <= c <= 0x7a
    ||| c == 0x21
    ||| 0x23 <= c <= 0x25
    ||| 0x28 <= c <= 0x2f
    ||| c == 0x3d
    ||| c == 0x3f
    ||| c == 0x5e
    ||| c == 0x5f
    ||| c == 0x7e
}

/// The upper-case hexadecimal digit of a value below 16.
pub open spec fn hex_digit(n: u8) -> u8 {
    if n < 10 {
        (0x30 + n) as u8
    } else {
        (0x41 + n - 10) as u8
    }
}

/// `%XX`, with the two hexadecimal digits of `c`.
pub open spec fn percent_escape(c: u8) -> Seq<u8> {
    seq![PERCENT, hex_digit(c / 16), hex_digit(c % 16)]
}

/// What one byte stands for in an escaped `href`.
pub open spec fn href_escaped_byte(c: u8) -> Seq<u8> {
    if is_href_safe(c) {
        seq![c]
    } else if c == AMPERSAND {
        ascii_bytes("&amp;"@)
    } else if c == APOSTROPHE {
        ascii_bytes("&#x27;"@)
    } else {
        percent_escape(c)
    }
}

/// The escaping of a byte string for an `href`: each byte replaced by what it
/// stands for.
pub open spec fn href_escaped(s: Seq<u8>) -> Seq<u8>
    decreases s.len(),
{
    if s.len() == 0 {
        Seq::empty()
    } else {
        href_escaped(s.drop_last()) + href_escaped_byte(s.last())
    }
}

/// Whether every byte of `s` may stand in an `href` as it is.
pub open spec fn href_plain(s: Seq<u8>) -> bool {
    forall|i: int| 0 <= i < s.len() ==> is_href_safe(#[trigger] s[i])
}

/// Escaping for an `href` goes through a concatenation.
pub proof fn lemma_href_escaped_concat(a: Seq<u8>, b: Seq<u8>)
    ensures
        href_escaped(a + b) == href_escaped(a) + href_escaped(b),
    decreases b.len(),
{
    if b.len() == 0 {
        assert(a + b =~= a);
        assert(href_escaped(a) + href_escaped(b) =~= href_escaped(a));
    } else {
        lemma_href_escaped_concat(a, b.drop_last());
        assert((a + b).drop_last() =~= a + b.drop_last());
        assert((a + b).last() == b.last());
        assert(href_escaped(a + b) =~= href_escaped(a) + href_escaped(b));
    }
}

/// A string of safe bytes is its own escaping.
pub proof fn lemma_href_escaped_plain(s: Seq<u8>)
    requires
        href_plain(s),
    ensures
        href_escaped(s) == s,
    decreases s.len(),
{
    if s.len() > 0 {
        lemma_href_escaped_plain(s.drop_last());
    }
    assert(href_escaped(s) =~= s);
}

/// Whether `c` needs escaping in an `href`, by the table.
fn href_unsafe(c: u8) -> (r: bool)
    ensures
        r == !is_href_safe(c),
{
    c >= 0x80 || HREF_SAFE[c as usize] == 0
}

/// The three bytes of the percent escape of `c`.
fn percent_encode(c: u8) -> (buf: [u8; 3])
    ensures
        buf@ =~= percent_escape(c),
{
    let mut buf = [0u8; 3];
    let high: usize = ((c as usize) >> 4) & 0xF;
    let low: usize = (c as usize) & 0xF;
    assert(high == c / 16 && low == c % 16) by (bit_vector)
        requires
            high == ((c as usize) >> 4) & 0xF,
            low == (c as usize) & 0xF,
    ;
    buf[0] = PERCENT;
    buf[1] = HEX_CHARS[high];
    buf[2] = HEX_CHARS[low];
    buf
}

/// Appends to `w` what the byte `c`, which is not safe in an `href`, stands
/// for there.
fn push_href_escape(w: &mut Vec<u8>, c: u8)
    requires
        !is_href_safe(c),
    ensures
        final(w)@ == old(w)@ + href_escaped_byte(c),
{
    if c == AMPERSAND {
        proof {
            reveal_strlit("&amp;");
        }
        extend(w, literal_bytes(AMP_ESCAPE));
    } else if c == APOSTROPHE {
        proof {
            reveal_strlit("&#x27;");
        }
        extend(w, literal_bytes(SINGLE_QUOTE_ESCAPE));
    } else {
        let buf = percent_encode(c);
        extend(w, buf.as_slice());
    }
}

/// Appends to `w` the escaping of `s` for an `href`: safe bytes are copied, `&`
/// and `'` become their entities, every other byte its percent escape.
pub fn escape_href_bytes(w: &mut Vec<u8>, s: &[u8])
    ensures
        final(w)@ == old(w)@ + href_escaped(s@),
{
    let mut mark: usize = 0;
    let mut i: usize = 0;
    while i < s.len()
        invariant
            mark <= i <= s@.len(),
            w@ == old(w)@ + href_escaped(s@.subrange(0, mark as int)),
            href_plain(s@.subrange(mark as int, i as int)),
        decreases s@.len() - i,
    {
        let c = s[i];
        if href_unsafe(c) {
            // The bytes since the last escape are safe: they are copied.
            proof {
                let done = s@.subrange(0, mark as int);
                let run = s@.subrange(mark as int, i as int);
                lemma_href_escaped_plain(run);
                lemma_href_escaped_concat(done, run);
                assert(done + run =~= s@.subrange(0, i as int));
                assert(s@.subrange(0, i + 1).drop_last() =~= s@.subrange(0, i as int));
                assert(s@.subrange(0, i + 1).last() == c);
            }
            if mark < i {
                extend(w, slice_subrange(s, mark, i));
            }
            assert(w@ =~= old(w)@ + href_escaped(s@.subrange(0, i as int)));
            push_href_escape(w, c);
            mark = i + 1;
            assert(s@.subrange(mark as int, mark as int) =~= Seq::<u8>::empty());
        } else {
            assert forall|j: int| 0 <= j < i + 1 - mark implies is_href_safe(
                #[trigger] s@.subrange(mark as int, i + 1)[j],
            ) by {
                if mark + j < i {
                    assert(s@.subrange(mark as int, i + 1)[j] == s@.subrange(mark as int, i as int)[j]);
                }
            }
        }
        i += 1;
    }
    proof {
        let done = s@.subrange(0, mark as int);
        let run = s@.subrange(mark as int, s@.len() as int);
        lemma_href_escaped_plain(run);
        lemma_href_escaped_concat(done, run);
        assert(done + run =~= s@);
    }
    extend(w, slice_subrange(s, mark, s.len()));
}

/// Appends the bytes of `s` to `w`.
pub fn extend(w: &mut Vec<u8>, s: &[u8])
    ensures
        final(w)@ == old(w)@ + s@,
{
    w.extend_from_slice(s);
    assert(w@ =~= old(w)@ + s@);
}

} // verus!
