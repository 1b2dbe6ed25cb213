//! The text drawn beside a node's glyph.
use vstd::prelude::*;
use crate::text::{byte_len, string_push};
use vstd::utf8::{decode_utf8, encode_utf8, is_char_boundary};

verus! {

/// A label longer than 20 bytes is cut after its first 17 bytes, which must
/// then end on a character boundary.
pub open spec fn label_cut_ok(label: Seq<char>) -> bool {
    byte_len(label) > 20 ==> is_char_boundary(encode_utf8(label), 17)
}

/// The label as a node shows it: unchanged up to 20 bytes, else its first 17
/// bytes followed by "...".
pub open spec fn shown_label(label: Seq<char>) -> Seq<char> {
    if byte_len(label) > 20 {
        decode_utf8(encode_utf8(label).subrange(0, 17)) + seq!['.', '.', '.']
    } else {
        label
    }
}

/// Whether `label_cut_ok` holds of a label: what a caller tests before
/// handing it to `node_label_text`.
pub fn label_can_be_cut(label: &str) -> (r: bool)
    requires
        byte_len(label@) <= usize::MAX,
    ensures
        r == label_cut_ok(label@),
{
    label.len() <= 20 || label.is_char_boundary(17)
}

/// The text drawn for a node: its glyph, a space, and its label as shown.
pub fn node_label_text(glyph: char, label: &str) -> (r: String)
    requires
        byte_len(label@) <= usize::MAX,
        label_cut_ok(label@),
    ensures
        r@ == seq![glyph, ' '] + shown_label(label@),
{
    let mut r = String::new();
    string_push(&mut r, glyph);
    string_push(&mut r, ' ');
    if label.len() > 20 {
        let (head, _tail) = label.split_at(17);
        proof {
            vstd::utf8::encode_utf8_decode_utf8(head@);
            assert(encode_utf8(head@) == encode_utf8(label@).subrange(0, 17));
        }
        r.append(head);
        assert(r@ == seq![glyph, ' '] + head@);
        string_push(&mut r, '.');
        string_push(&mut r, '.');
        string_push(&mut r, '.');
        proof {
            let dots = seq!['.', '.', '.'];
            assert(decode_utf8(encode_utf8(label@).subrange(0, 17)) == head@);
            assert(shown_label(label@) == head@ + dots);
            assert(r@ =~= seq![glyph, ' '] + (head@ + dots));
        }
        r
    } else {
        r.append(label);
        proof {
            assert(r@ =~= seq![glyph, ' '] + shown_label(label@));
        }
        r
    }
}

/// The encoding of two character sequences one after the other is the
/// encoding of the first followed by that of the second.
proof fn lemma_encode_concat(a: Seq<char>, b: Seq<char>)
    ensures
        encode_utf8(a + b) == encode_utf8(a) + encode_utf8(b),
    decreases a.len(),
{
    if a.len() == 0 {
        assert(a + b =~= b);
        assert(encode_utf8(a) =~= Seq::<u8>::empty());
        assert(encode_utf8(a) + encode_utf8(b) =~= encode_utf8(b));
    } else {
        lemma_encode_concat(a.drop_first(), b);
        assert((a + b).drop_first() =~= a.drop_first() + b);
        assert((a + b)[0] == a[0]);
        assert(encode_utf8(a + b) =~= encode_utf8(a) + encode_utf8(b));
    }
}

/// A node's label as shown never takes more than 20 bytes, and a label that
/// fits is shown unchanged.
pub proof fn law_shown_label_fits(label: Seq<char>)
    requires
        label_cut_ok(label),
    ensures
        byte_len(shown_label(label)) <= 20,
        byte_len(label) <= 20 ==> shown_label(label) == label,
{
    if byte_len(label) > 20 {
        let bytes = encode_utf8(label);
        let head_bytes = bytes.subrange(0, 17);
        let dots = seq!['.', '.', '.'];
        vstd::utf8::encode_utf8_valid_utf8(label);
        vstd::utf8::valid_utf8_split(bytes, 17);
        vstd::utf8::decode_utf8_encode_utf8(head_bytes);
        lemma_encode_concat(decode_utf8(head_bytes), dots);
        assert(encode_utf8(dots).len() == 3) by {
            reveal_with_fuel(encode_utf8, 4);
        }
    }
}

/// The query as the search line shows it: without its leading `/`.
pub fn search_line_text(query: &str) -> (r: String)
    ensures
        r@ == (if query@.len() > 0 && query@[0] == '/' {
            query@.drop_first()
        } else {
            query@
        }),
{
    let n = query.unicode_len();
    if n > 0 && query.get_char(0) == '/' {
        let t = query.substring_char(1, n);
        proof {
            assert(t@ =~= query@.drop_first());
        }
        t.to_string()
    } else {
        query.to_string()
    }
}

} // verus!
