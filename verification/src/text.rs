//! Escaping of strings: the byte engines at work on the UTF-8 form of a string.
//!
//! Only ASCII bytes are ever replaced, and only by ASCII bytes, so what the
//! engines write for a string is again the UTF-8 form of a string.
use crate::escape::{
    ascii_bytes, escape_href_bytes, href_escaped, href_escaped_byte, html_escaped,
    html_escaped_byte, html_plain, is_html_special, lemma_href_escaped_concat,
    lemma_html_escaped_concat, lemma_html_escaped_plain,
};
use vstd::prelude::*;
use vstd::string::*;
use vstd::utf8::*;

verus! {

/// What one character stands for in escaped HTML text.
pub open spec fn html_escaped_char(c: char) -> Seq<char> {
    if c == '"' {
        "&quot;"@
    } else if c == '&' {
        "&amp;"@
    } else if c == '<' {
        "&lt;"@
    } else if c == '>' {
        "&gt;"@
    } else {
        seq![c]
    }
}

/// The HTML escaping of a string: each character replaced by what it stands
/// for.
pub open spec fn html_escaped_text(s: Seq<char>) -> Seq<char>
    decreases s.len(),
{
    if s.len() == 0 {
        Seq::empty()
    } else {
        html_escaped_text(s.drop_last()) + html_escaped_char(s.last())
    }
}

/// The string whose characters are the given ASCII bytes.
pub open spec fn ascii_chars(b: Seq<u8>) -> Seq<char> {
    Seq::new(b.len(), |i: int| b[i] as char)
}

/// The escaping of a string for an `href`: the bytes of its UTF-8 form, each
/// replaced by what it stands for.
pub open spec fn href_escaped_text(s: Seq<char>) -> Seq<char> {
    ascii_chars(href_escaped(encode_utf8(s)))
}

/// The UTF-8 form of a concatenation is the concatenation of the UTF-8 forms.
pub proof fn lemma_encode_utf8_concat(a: Seq<char>, b: Seq<char>)
    ensures
        encode_utf8(a + b) == encode_utf8(a) + encode_utf8(b),
    decreases a.len(),
{
    if a.len() == 0 {
        assert(a + b =~= b);
        assert(encode_utf8(a) + encode_utf8(b) =~= encode_utf8(b));
    } else {
        lemma_encode_utf8_concat(a.drop_first(), b);
        assert((a + b).drop_first() =~= a.drop_first() + b);
        assert((a + b)[0] == a[0]);
        assert(encode_utf8(a + b) =~= encode_utf8(a) + encode_utf8(b));
    }
}

/// The UTF-8 form of an ASCII string holds its characters as bytes.
pub proof fn lemma_encode_ascii(s: Seq<char>)
    requires
        is_ascii_chars(s),
    ensures
        encode_utf8(s) == ascii_bytes(s),
{
    is_ascii_chars_encode_utf8(s);
    assert(encode_utf8(s) =~= ascii_bytes(s));
}

proof fn lemma_multibyte_scalar(v: u32)
    by (bit_vector)
    requires
        v > 0x7f,
    ensures
        leading_byte_width_2(v) >= 0x80,
        leading_byte_width_3(v) >= 0x80,
        leading_byte_width_4(v) >= 0x80,
        last_continuation_byte(v) >= 0x80,
        second_last_continuation_byte(v) >= 0x80,
        third_last_continuation_byte(v) >= 0x80,
{
}

proof fn lemma_single_byte_scalar(v: u32)
    by (bit_vector)
    requires
        v <= 0x7f,
    ensures
        leading_byte_width_1(v) == v,
{
}

/// The UTF-8 form of one character: the character itself where it is ASCII,
/// and otherwise bytes that all have their top bit set.
pub proof fn lemma_scalar_bytes(c: char)
    ensures
        c as u32 <= 0x7f ==> encode_utf8(seq![c]) == seq![c as u8],
        c as u32 > 0x7f ==> forall|i: int|
            0 <= i < encode_utf8(seq![c]).len() ==> #[trigger] encode_utf8(seq![c])[i] >= 0x80,
{
    let v = c as u32;
    let one = seq![c];
    assert(one.drop_first() =~= Seq::<char>::empty());
    assert(encode_utf8(Seq::<char>::empty()) =~= Seq::<u8>::empty());
    assert(encode_utf8(one) =~= encode_scalar(v));
    char_is_scalar(c);
    if v <= 0x7f {
        lemma_single_byte_scalar(v);
        assert(encode_scalar(v) =~= seq![c as u8]);
    } else {
        lemma_multibyte_scalar(v);
    }
}

/// Escaping characters goes through a concatenation.
pub proof fn lemma_html_escaped_text_concat(a: Seq<char>, b: Seq<char>)
    ensures
        html_escaped_text(a + b) == html_escaped_text(a) + html_escaped_text(b),
    decreases b.len(),
{
    if b.len() == 0 {
        assert(a + b =~= a);
        assert(html_escaped_text(a) + html_escaped_text(b) =~= html_escaped_text(a));
    } else {
        lemma_html_escaped_text_concat(a, b.drop_last());
        assert((a + b).drop_last() =~= a + b.drop_last());
        assert((a + b).last() == b.last());
        assert(html_escaped_text(a + b) =~= html_escaped_text(a) + html_escaped_text(b));
    }
}

/// For one character, escaping its UTF-8 form gives the UTF-8 form of what it
/// stands for.
proof fn lemma_html_escaped_char_utf8(c: char)
    ensures
        html_escaped(encode_utf8(seq![c])) == encode_utf8(html_escaped_char(c)),
{
    lemma_scalar_bytes(c);
    let bytes = encode_utf8(seq![c]);
    if c as u32 <= 0x7f {
        let b = c as u8;
        assert(bytes.drop_last() =~= Seq::<u8>::empty());
        assert(html_escaped(Seq::<u8>::empty()) =~= Seq::<u8>::empty());
        assert(html_escaped(bytes) =~= html_escaped_byte(b));
        reveal_strlit("&quot;");
        reveal_strlit("&amp;");
        reveal_strlit("&lt;");
        reveal_strlit("&gt;");
        if is_html_special(b) {
            lemma_encode_ascii(html_escaped_char(c));
        }
    } else {
        assert(html_plain(bytes));
        lemma_html_escaped_plain(bytes);
    }
}

/// The byte engine and the characters agree: escaping the UTF-8 form of a
/// string byte by byte gives the UTF-8 form of the string escaped character by
/// character.
pub proof fn lemma_html_escaped_utf8(s: Seq<char>)
    ensures
        html_escaped(encode_utf8(s)) == encode_utf8(html_escaped_text(s)),
    decreases s.len(),
{
    if s.len() == 0 {
        assert(html_escaped_text(s) =~= Seq::<char>::empty());
    } else {
        let head = seq![s.last()];
        let front = s.drop_last();
        assert(s =~= front + head);
        lemma_html_escaped_utf8(front);
        lemma_html_escaped_char_utf8(s.last());
        lemma_encode_utf8_concat(front, head);
        lemma_html_escaped_concat(encode_utf8(front), encode_utf8(head));
        lemma_encode_utf8_concat(html_escaped_text(front), html_escaped_char(s.last()));
    }
}

/// Whether `c` is one of the characters `"`, `&`, `<`, `>`.
pub open spec fn is_reserved_char(c: char) -> bool {
    c == '"' || c == '&' || c == '<' || c == '>'
}

/// A string without reserved characters is its own escaping.
pub proof fn lemma_html_escaped_text_plain(s: Seq<char>)
    requires
        forall|i: int| 0 <= i < s.len() ==> !is_reserved_char(#[trigger] s[i]),
    ensures
        html_escaped_text(s) == s,
    decreases s.len(),
{
    if s.len() > 0 {
        let front = s.drop_last();
        assert forall|i: int| 0 <= i < front.len() implies !is_reserved_char(#[trigger] front[i]) by {
            assert(front[i] == s[i]);
        }
        lemma_html_escaped_text_plain(front);
        assert(!is_reserved_char(s[s.len() - 1]));
    }
    assert(html_escaped_text(s) =~= s);
}

/// Whether `s` can stand between the quotes of an attribute and in text: it
/// holds none of `"`, `<` and `>`.
pub open spec fn markup_free(s: Seq<char>) -> bool {
    forall|i: int| 0 <= i < s.len() ==> s[i] != '"' && s[i] != '<' && #[trigger] s[i] != '>'
}

/// An escaped string holds none of `"`, `<` and `>`.
pub proof fn lemma_html_escaped_text_markup_free(s: Seq<char>)
    ensures
        markup_free(html_escaped_text(s)),
    decreases s.len(),
{
    if s.len() > 0 {
        lemma_html_escaped_text_markup_free(s.drop_last());
        reveal_strlit("&quot;");
        reveal_strlit("&amp;");
        reveal_strlit("&lt;");
        reveal_strlit("&gt;");
        let front = html_escaped_text(s.drop_last());
        let last = html_escaped_char(s.last());
        assert(markup_free(last));
        lemma_markup_free_concat(front, last);
    }
}

/// Two strings without `"`, `<` and `>` make one without them.
pub proof fn lemma_markup_free_concat(a: Seq<char>, b: Seq<char>)
    requires
        markup_free(a),
        markup_free(b),
    ensures
        markup_free(a + b),
{
    assert forall|i: int| 0 <= i < (a + b).len() implies (a + b)[i] != '"' && (a + b)[i] != '<'
        && #[trigger] (a + b)[i] != '>' by {
        if i < a.len() {
            assert((a + b)[i] == a[i]);
        } else {
            assert((a + b)[i] == b[i - a.len()]);
        }
    }
}

/// Every byte of an escaped `href` is ASCII.
pub proof fn lemma_href_escaped_ascii(s: Seq<u8>)
    ensures
        forall|i: int| 0 <= i < href_escaped(s).len() ==> #[trigger] href_escaped(s)[i] < 0x80,
    decreases s.len(),
{
    if s.len() > 0 {
        lemma_href_escaped_ascii(s.drop_last());
        reveal_strlit("&amp;");
        reveal_strlit("&#x27;");
        let front = href_escaped(s.drop_last());
        let last = href_escaped_byte(s.last());
        assert(forall|i: int| 0 <= i < last.len() ==> #[trigger] last[i] < 0x80);
        assert forall|i: int| 0 <= i < href_escaped(s).len() implies #[trigger] href_escaped(s)[i]
            < 0x80 by {
            if i < front.len() {
                assert(href_escaped(s)[i] == front[i]);
            } else {
                assert(href_escaped(s)[i] == last[i - front.len()]);
            }
        }
    }
}

/// A string of ASCII bytes is valid UTF-8, and is the UTF-8 form of its bytes
/// read as characters.
pub proof fn lemma_ascii_decode(b: Seq<u8>)
    requires
        forall|i: int| 0 <= i < b.len() ==> #[trigger] b[i] < 0x80,
    ensures
        valid_utf8(b),
        decode_utf8(b) == ascii_chars(b),
{
    let chars = ascii_chars(b);
    assert(is_ascii_chars(chars)) by {
        assert forall|i: int| 0 <= i < chars.len() implies '\0' <= #[trigger] chars[i]
            <= '\u{7f}' by {
            assert(b[i] < 0x80);
        }
    }
    is_ascii_chars_encode_utf8(chars);
    assert(encode_utf8(chars) =~= b) by {
        assert forall|i: int| 0 <= i < b.len() implies encode_utf8(chars)[i] == b[i] by {
            assert(chars[i] as u8 == encode_utf8(chars)[i]);
            assert(b[i] < 0x80);
        }
    }
    encode_utf8_valid_utf8(chars);
    encode_utf8_decode_utf8(chars);
}

/// `std::str::from_utf8`: the string that `bytes` are the UTF-8 form of, where
/// they are valid UTF-8, and nothing where they are not.
#[verifier::external_body]
fn str_from_utf8(bytes: &[u8]) -> (r: Option<&str>)
    ensures
        r is Some <==> valid_utf8(bytes@),
        r matches Some(s) ==> s@ == decode_utf8(bytes@),
{
    std::str::from_utf8(bytes).ok()
}

/// Writes `s` to `w`, with the characters `"`, `&`, `<` and `>` replaced by
/// `&quot;`, `&amp;`, `&lt;` and `&gt;`.
pub fn escape_html(w: &mut String, s: &str)
    ensures
        final(w)@ == old(w)@ + html_escaped_text(s@),
        encode_utf8(final(w)@) == encode_utf8(old(w)@) + html_escaped(encode_utf8(s@)),
{
    let mut buf: Vec<u8> = Vec::new();
    crate::simd::escape_html(&mut buf, s.as_bytes());
    proof {
        lemma_html_escaped_utf8(s@);
        lemma_encode_utf8_concat(old(w)@, html_escaped_text(s@));
        encode_utf8_valid_utf8(html_escaped_text(s@));
        encode_utf8_decode_utf8(html_escaped_text(s@));
        assert(buf@ =~= html_escaped(encode_utf8(s@)));
    }
    // What was written is the UTF-8 form of a string.
    let escaped = str_from_utf8(buf.as_slice()).unwrap();
    w.append(escaped);
}

/// Writes `s` to `w` as the value of an `href`: the bytes of `s` that are
/// unsafe there are percent-encoded, but for `&` and `'`, which become
/// `&amp;` and `&#x27;`.
pub fn escape_href(w: &mut String, s: &str)
    ensures
        final(w)@ == old(w)@ + href_escaped_text(s@),
        encode_utf8(final(w)@) == encode_utf8(old(w)@) + href_escaped(encode_utf8(s@)),
{
    let mut buf: Vec<u8> = Vec::new();
    escape_href_bytes(&mut buf, s.as_bytes());
    proof {
        assert(buf@ =~= href_escaped(encode_utf8(s@)));
        lemma_href_escaped_ascii(encode_utf8(s@));
        lemma_ascii_decode(buf@);
        lemma_encode_utf8_concat(old(w)@, href_escaped_text(s@));
        decode_utf8_encode_utf8(buf@);
    }
    // What was written is the UTF-8 form of a string.
    let escaped = str_from_utf8(buf.as_slice()).unwrap();
    w.append(escaped);
}

/// An escaped string is empty only if the string is, and ends with a line
/// feed only if the string does.
pub proof fn lemma_html_escaped_text_end(s: Seq<char>)
    ensures
        (html_escaped_text(s).len() == 0) == (s.len() == 0),
        s.len() > 0 ==> (html_escaped_text(s).last() == '\n') == (s.last() == '\n'),
{
    reveal_strlit("&quot;");
    reveal_strlit("&amp;");
    reveal_strlit("&lt;");
    reveal_strlit("&gt;");
    if s.len() > 0 {
        let last = html_escaped_char(s.last());
        assert(last.len() > 0);
        assert(html_escaped_text(s).last() == last.last());
    }
}

/// No byte of an escaped `href` is a line feed, and the escaping is empty only
/// if the string is.
pub proof fn lemma_href_escaped_end(s: Seq<u8>)
    ensures
        (href_escaped(s).len() == 0) == (s.len() == 0),
        forall|i: int| 0 <= i < href_escaped(s).len() ==> #[trigger] href_escaped(s)[i] != 0x0a,
    decreases s.len(),
{
    if s.len() > 0 {
        lemma_href_escaped_end(s.drop_last());
        reveal_strlit("&amp;");
        reveal_strlit("&#x27;");
        let front = href_escaped(s.drop_last());
        let last = href_escaped_byte(s.last());
        assert(last.len() > 0);
        assert(forall|i: int| 0 <= i < last.len() ==> #[trigger] last[i] != 0x0a);
        assert forall|i: int| 0 <= i < href_escaped(s).len() implies #[trigger] href_escaped(s)[i]
            != 0x0a by {
            if i < front.len() {
                assert(href_escaped(s)[i] == front[i]);
            } else {
                assert(href_escaped(s)[i] == last[i - front.len()]);
            }
        }
    }
}

/// An `href` is empty only if the string is, and never ends with a line feed.
pub proof fn lemma_href_escaped_text_end(s: Seq<char>)
    ensures
        (href_escaped_text(s).len() == 0) == (s.len() == 0),
        href_escaped_text(s).len() > 0 ==> href_escaped_text(s).last() != '\n',
{
    lemma_utf8_end(s);
    lemma_href_escaped_end(encode_utf8(s));
    lemma_href_escaped_ascii(encode_utf8(s));
    let bytes = href_escaped(encode_utf8(s));
    if bytes.len() > 0 {
        assert(bytes[bytes.len() - 1] != 0x0a);
        assert(bytes[bytes.len() - 1] < 0x80);
    }
}

/// The UTF-8 form of one character has a byte, and ends with the byte of a
/// line feed only if the character is a line feed.
proof fn lemma_char_end(c: char)
    ensures
        encode_utf8(seq![c]).len() > 0,
        (encode_utf8(seq![c]).last() == 0x0a) == (c == '\n'),
{
    lemma_scalar_bytes(c);
    let bytes = encode_utf8(seq![c]);
    let one = seq![c];
    assert(one.drop_first() =~= Seq::<char>::empty());
    assert(encode_utf8(Seq::<char>::empty()) =~= Seq::<u8>::empty());
    assert(bytes =~= encode_scalar(c as u32));
    char_is_scalar(c);
    assert(bytes.len() > 0);
    if c as u32 > 0x7f {
        assert(bytes[bytes.len() - 1] >= 0x80);
    }
}

/// The UTF-8 form of a string is empty only if the string is, and ends with
/// the byte of a line feed only if the string ends with a line feed.
pub proof fn lemma_utf8_end(s: Seq<char>)
    ensures
        (encode_utf8(s).len() == 0) == (s.len() == 0),
        s.len() > 0 ==> (encode_utf8(s).last() == 0x0a) == (s.last() == '\n'),
{
    if s.len() > 0 {
        let head = seq![s.last()];
        let front = s.drop_last();
        assert(s =~= front + head);
        lemma_encode_utf8_concat(front, head);
        lemma_char_end(s.last());
        assert(encode_utf8(s).last() == encode_utf8(head).last());
    } else {
        assert(encode_utf8(s) =~= Seq::<u8>::empty());
    }
}

/// Whether `s` ends with a line feed.
pub fn ends_with_newline(s: &str) -> (r: bool)
    ensures
        r == (s@.len() > 0 && s@.last() == '\n'),
{
    let bytes = s.as_bytes();
    proof {
        lemma_utf8_end(s@);
    }
    bytes.len() > 0 && bytes[bytes.len() - 1] == 0x0a
}

/// Whether two strings are the same.
pub fn same_str(a: &str, b: &str) -> (r: bool)
    ensures
        r == (a@ == b@),
{
    let x = a.as_bytes();
    let y = b.as_bytes();
    proof {
        encode_utf8_decode_utf8(a@);
        encode_utf8_decode_utf8(b@);
    }
    if x.len() != y.len() {
        return false;
    }
    let mut i: usize = 0;
    while i < x.len()
        invariant
            x@ == encode_utf8(a@),
            y@ == encode_utf8(b@),
            x@.len() == y@.len(),
            0 <= i <= x@.len(),
            x@.subrange(0, i as int) == y@.subrange(0, i as int),
        decreases x@.len() - i,
    {
        if x[i] != y[i] {
            return false;
        }
        assert(x@.subrange(0, i + 1) =~= x@.subrange(0, i as int).push(x@[i as int]));
        assert(y@.subrange(0, i + 1) =~= y@.subrange(0, i as int).push(y@[i as int]));
        i += 1;
    }
    assert(x@ =~= x@.subrange(0, i as int));
    assert(y@ =~= y@.subrange(0, i as int));
    true
}

} // verus!
