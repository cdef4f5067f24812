//! Lines of output: where they end and how one is shown.

use vstd::prelude::*;
use vstd::slice::slice_subrange;
use vstd::string::*;

verus! {

/// The byte that ends a line.
pub const NEWLINE: u8 = 10;

/// How many bytes of a line are shown at most.
pub const MAX_LINE_DISPLAY: usize = 4096;

/// The lines of `s` that end in a newline, each with its newline.
pub open spec fn full_lines(s: Seq<u8>) -> Seq<Seq<u8>>
    decreases s.len(),
{
    if s.len() == 0 {
        seq![]
    } else if s.last() == NEWLINE {
        full_lines(s.drop_last()).push(unfinished_line(s.drop_last()).push(NEWLINE))
    } else {
        full_lines(s.drop_last())
    }
}

/// What follows the last newline of `s`.
pub open spec fn unfinished_line(s: Seq<u8>) -> Seq<u8>
    decreases s.len(),
{
    if s.len() == 0 || s.last() == NEWLINE {
        seq![]
    } else {
        unfinished_line(s.drop_last()).push(s.last())
    }
}

/// All lines of `s`; the last one may lack its newline.
pub open spec fn all_lines(s: Seq<u8>) -> Seq<Seq<u8>> {
    if unfinished_line(s).len() == 0 {
        full_lines(s)
    } else {
        full_lines(s).push(unfinished_line(s))
    }
}

/// Whether `s` holds no newline.
pub open spec fn no_newline(s: Seq<u8>) -> bool {
    forall|i: int| 0 <= i < s.len() ==> #[trigger] s[i] != NEWLINE
}

/// The lines of `s` together are `s`: no byte is lost, added or moved.
pub proof fn law_lines_keep_every_byte(s: Seq<u8>)
    ensures
        full_lines(s).flatten() + unfinished_line(s) == s,
        all_lines(s).flatten() == s,
    decreases s.len(),
{
    if s.len() > 0 {
        let front = s.drop_last();
        law_lines_keep_every_byte(front);
        if s.last() == NEWLINE {
            let line = unfinished_line(front).push(NEWLINE);
            full_lines(front).lemma_flatten_push(line);
            assert(full_lines(front).flatten() + line =~= (full_lines(front).flatten()
                + unfinished_line(front)).push(NEWLINE));
        }
        assert(s =~= front.push(s.last()));
        assert(full_lines(s).flatten() + unfinished_line(s) =~= s);
    } else {
        assert(full_lines(s).flatten() + unfinished_line(s) =~= s);
    }
    if unfinished_line(s).len() == 0 {
        assert(full_lines(s).flatten() + unfinished_line(s) =~= full_lines(s).flatten());
    } else {
        full_lines(s).lemma_flatten_push(unfinished_line(s));
    }
}

/// Whether `line` ends in a newline and holds no other.
pub open spec fn is_full_line(line: Seq<u8>) -> bool {
    line.len() > 0 && line.last() == NEWLINE && no_newline(line.drop_last())
}

/// A full line ends in a newline and holds no other; an unfinished line holds none.
pub proof fn law_lines_end_at_newlines(s: Seq<u8>)
    ensures
        forall|i: int| 0 <= i < full_lines(s).len() ==> is_full_line(#[trigger] full_lines(s)[i]),
        no_newline(unfinished_line(s)),
    decreases s.len(),
{
    if s.len() > 0 {
        law_lines_end_at_newlines(s.drop_last());
        if s.last() == NEWLINE {
            let before = unfinished_line(s.drop_last());
            assert(before.push(NEWLINE).drop_last() =~= before);
            assert(is_full_line(before.push(NEWLINE)));
            assert forall|i: int| 0 <= i < full_lines(s).len() implies is_full_line(
                #[trigger] full_lines(s)[i],
            ) by {
                let earlier = full_lines(s.drop_last());
                if i < earlier.len() {
                    assert(full_lines(s)[i] == earlier[i]);
                }
            }
        } else {
            assert(full_lines(s) == full_lines(s.drop_last()));
        }
    }
}

/// Bytes without a newline only extend the unfinished line.
pub proof fn lemma_extend_line(s: Seq<u8>, t: Seq<u8>)
    requires
        no_newline(t),
    ensures
        full_lines(s + t) == full_lines(s),
        unfinished_line(s + t) == unfinished_line(s) + t,
    decreases t.len(),
{
    if t.len() > 0 {
        lemma_extend_line(s, t.drop_last());
        assert((s + t).drop_last() =~= s + t.drop_last());
        assert((s + t).last() == t.last());
        assert(unfinished_line(s + t) =~= unfinished_line(s) + t);
    } else {
        assert(s + t =~= s);
        assert(unfinished_line(s) + t =~= unfinished_line(s));
    }
}

/// The lines of a longer text: those of its front, then those of the rest,
/// the first of which continues the unfinished line.
pub proof fn lemma_lines_of_joined(s: Seq<u8>, t: Seq<u8>)
    ensures
        full_lines(s + t) == full_lines(s) + full_lines(unfinished_line(s) + t),
        unfinished_line(s + t) == unfinished_line(unfinished_line(s) + t),
    decreases t.len(),
{
    let u = unfinished_line(s);
    if t.len() == 0 {
        assert(s + t =~= s);
        assert(u + t =~= u);
        law_lines_end_at_newlines(s);
        lemma_extend_line(Seq::<u8>::empty(), u);
        assert(Seq::<u8>::empty() + u =~= u);
        assert(full_lines(s) + full_lines(u) =~= full_lines(s));
    } else {
        let t0 = t.drop_last();
        lemma_lines_of_joined(s, t0);
        assert((s + t).drop_last() =~= s + t0);
        assert((u + t).drop_last() =~= u + t0);
        assert((s + t).last() == t.last());
        assert((u + t).last() == t.last());
        assert(full_lines(s + t) =~= full_lines(s) + full_lines(u + t));
    }
}

/// The text that the standard library makes of bytes that are not UTF-8.
pub uninterp spec fn lossy_text(bytes: Seq<u8>) -> Seq<char>;

/// Calls `String::from_utf8_lossy`. Bytes that are UTF-8 give the text that
/// they encode. Of other bytes the contract claims only that the text is a
/// function of them; what stands in place of the invalid ones is not said.
#[verifier::external_body]
fn decode_lossy(bytes: &[u8]) -> (text: String)
    ensures
        vstd::utf8::valid_utf8(bytes@) ==> text@ == vstd::utf8::decode_utf8(bytes@),
        !vstd::utf8::valid_utf8(bytes@) ==> text@ == lossy_text(bytes@),
{
    String::from_utf8_lossy(bytes).into_owned()
}

/// The text of some bytes: the one that they encode, if they are UTF-8, or
/// else what the standard library makes of them.
pub open spec fn decoded(bytes: Seq<u8>) -> Seq<char> {
    if vstd::utf8::valid_utf8(bytes) {
        vstd::utf8::decode_utf8(bytes)
    } else {
        lossy_text(bytes)
    }
}

/// The bytes of a line that are shown: the first 4096.
pub open spec fn shown_part(line: Seq<u8>) -> Seq<u8> {
    if line.len() > MAX_LINE_DISPLAY {
        line.take(MAX_LINE_DISPLAY as int)
    } else {
        line
    }
}

/// `text` with a newline at its end, which is added only where it is missing.
pub open spec fn terminated(text: Seq<char>) -> Seq<char> {
    if text.len() > 0 && text.last() == '\n' {
        text
    } else {
        text.push('\n')
    }
}

/// What is printed for a line.
pub open spec fn line_text(line: Seq<u8>) -> Seq<char> {
    terminated(decoded(shown_part(line)))
}

/// The text with a newline at its end.
pub fn terminate(text: String) -> (res: String)
    ensures
        res@ == terminated(text@),
        res@ == (if text@.len() > 0 && text@[text@.len() - 1] == '\n' {
            text@
        } else {
            text@ + seq!['\n']
        }),
{
    let n: usize = text.as_str().unicode_len();
    if n > 0 && text.as_str().get_char(n - 1) == '\n' {
        text
    } else {
        proof {
            reveal_strlit("\n");
        }
        let res = text.concat("\n");
        assert(res@ =~= text@.push('\n'));
        res
    }
}

/// The bytes of a line that are shown.
pub fn displayed(line: &[u8]) -> (part: &[u8])
    ensures
        part@ == shown_part(line@),
        part@ == line@.subrange(
            0,
            (if line@.len() < 4096 {
                line@.len() as int
            } else {
                4096
            }),
        ),
{
    if line.len() > MAX_LINE_DISPLAY {
        slice_subrange(line, 0, MAX_LINE_DISPLAY)
    } else {
        line
    }
}

/// What is to be printed for a line, newline included.
pub fn emit_line(line: &[u8]) -> (text: String)
    ensures
        text@ == line_text(line@),
        text@.len() > 0,
        text@[text@.len() - 1] == '\n',
        line@.len() > 4096 ==> text@ == line_text(line@.subrange(0, 4096)),
        line@.len() <= 4096 && vstd::utf8::valid_utf8(line@) ==> text@ == vstd::utf8::decode_utf8(
            line@,
        ) || text@ == vstd::utf8::decode_utf8(line@).push('\n'),
{
    proof {
        if line@.len() > 4096 {
            law_long_lines_are_cut(line@);
        }
    }
    let text = decode_lossy(displayed(line));
    terminate(text)
}

proof fn lemma_encode_joined(a: Seq<char>, b: Seq<char>)
    ensures
        vstd::utf8::encode_utf8(a + b) == vstd::utf8::encode_utf8(a) + vstd::utf8::encode_utf8(b),
    decreases a.len(),
{
    if a.len() == 0 {
        assert(a + b =~= b);
        assert(vstd::utf8::encode_utf8(a) + vstd::utf8::encode_utf8(b)
            =~= vstd::utf8::encode_utf8(b));
    } else {
        lemma_encode_joined(a.drop_first(), b);
        assert((a + b).drop_first() =~= a.drop_first() + b);
        assert((a + b)[0] == a[0]);
        assert(vstd::utf8::encode_utf8(a + b) =~= vstd::utf8::encode_utf8(a)
            + vstd::utf8::encode_utf8(b));
    }
}

proof fn lemma_encode_newline()
    ensures
        vstd::utf8::encode_utf8(seq!['\n']) == seq![NEWLINE],
{
    let chars = seq!['\n'];
    assert(vstd::utf8::is_ascii_chars(chars));
    vstd::utf8::is_ascii_chars_encode_utf8(chars);
    assert(vstd::utf8::encode_utf8(chars) =~= seq![NEWLINE]);
}

/// A text ends in a newline exactly if the bytes that encode it do.
proof fn lemma_last_newline(bytes: Seq<u8>)
    requires
        vstd::utf8::valid_utf8(bytes),
    ensures
        ({
            let text = vstd::utf8::decode_utf8(bytes);
            (text.len() > 0 && text.last() == '\n') <==> (bytes.len() > 0 && bytes.last()
                == NEWLINE)
        }),
{
    let text = vstd::utf8::decode_utf8(bytes);
    vstd::utf8::decode_utf8_encode_utf8(bytes);
    lemma_encode_newline();
    if text.len() > 0 && text.last() == '\n' {
        assert(text =~= text.drop_last() + seq!['\n']);
        lemma_encode_joined(text.drop_last(), seq!['\n']);
    }
    if bytes.len() > 0 && bytes.last() == NEWLINE {
        let n = bytes.len() as int;
        vstd::utf8::is_char_boundary_iff_not_is_continuation_byte(bytes, n - 1);
        vstd::utf8::decode_utf8_split(bytes, n - 1);
        assert(bytes.subrange(n - 1, n) =~= seq![NEWLINE]);
        vstd::utf8::encode_utf8_decode_utf8(seq!['\n']);
        assert(text.last() == '\n');
    }
}

/// A line of text that is not too long is shown as it is: the bytes printed
/// are its own, with a newline added only where it has none.
pub proof fn law_text_lines_are_shown_as_they_are(line: Seq<u8>)
    requires
        line.len() <= 4096,
        vstd::utf8::valid_utf8(line),
    ensures
        vstd::utf8::encode_utf8(line_text(line)) == if line.len() > 0 && line[line.len() - 1]
            == 10 {
            line
        } else {
            line.push(10)
        },
{
    let text = vstd::utf8::decode_utf8(line);
    lemma_last_newline(line);
    vstd::utf8::decode_utf8_encode_utf8(line);
    lemma_encode_newline();
    lemma_encode_joined(text, seq!['\n']);
    assert(text + seq!['\n'] =~= text.push('\n'));
    assert(line + seq![NEWLINE] =~= line.push(NEWLINE));
}

/// Whatever a line holds, what is printed for it ends in a newline.
pub proof fn law_shown_lines_end_in_newline(line: Seq<u8>)
    ensures
        line_text(line).len() > 0,
        line_text(line).last() == '\n',
{
}

/// Of a line of more than 4096 bytes the first 4096 are shown, as if they
/// were the line.
pub proof fn law_long_lines_are_cut(line: Seq<u8>)
    requires
        line.len() > 4096,
    ensures
        line_text(line) == line_text(line.subrange(0, 4096)),
{
    assert(line.take(4096) =~= line.subrange(0, 4096));
}

/// A line that is not UTF-8 is shown as the text that the standard library
/// makes of it, with a newline added only where that has none.
pub proof fn law_other_lines_are_shown_as_decoded(line: Seq<u8>)
    requires
        line.len() <= 4096,
        !vstd::utf8::valid_utf8(line),
    ensures
        line_text(line) == if lossy_text(line).len() > 0 && lossy_text(line)[lossy_text(line).len()
            - 1] == '\n' {
            lossy_text(line)
        } else {
            lossy_text(line).push('\n')
        },
{
}

/// The full lines of `s` and the unfinished one are `s` cut after each byte
/// 10: joined they are `s`, a full line holds that byte at its end and nowhere
/// else, and the unfinished line does not hold it.
pub proof fn law_lines_are_cut_after_each_newline(s: Seq<u8>)
    ensures
        full_lines(s).flatten() + unfinished_line(s) == s,
        forall|i: int| 0 <= i < full_lines(s).len() ==> (#[trigger] full_lines(s)[i]).len() > 0,
        forall|i: int, j: int|
            0 <= i < full_lines(s).len() && 0 <= j < full_lines(s)[i].len() ==> (
            #[trigger] full_lines(s)[i][j] == 10 <==> j == full_lines(s)[i].len() - 1),
        forall|j: int| 0 <= j < unfinished_line(s).len() ==> #[trigger] unfinished_line(s)[j] != 10,
{
    law_lines_keep_every_byte(s);
    law_lines_end_at_newlines(s);
    assert forall|i: int, j: int|
        0 <= i < full_lines(s).len() && 0 <= j < full_lines(s)[i].len() implies (
    #[trigger] full_lines(s)[i][j] == 10 <==> j == full_lines(s)[i].len() - 1) by {
        let line = full_lines(s)[i];
        assert(is_full_line(line));
        if j < line.len() - 1 {
            assert(line.drop_last()[j] == line[j]);
        }
    }
    assert forall|i: int| 0 <= i < full_lines(s).len() implies (#[trigger] full_lines(s)[i]).len()
        > 0 by {
        assert(is_full_line(full_lines(s)[i]));
    }
}

/// The lines of `s` joined are `s`; none is empty; each but the last ends in
/// the byte 10, and none holds it elsewhere.
pub proof fn law_all_lines_are_cut_after_each_newline(s: Seq<u8>)
    ensures
        all_lines(s).flatten() == s,
        forall|i: int| 0 <= i < all_lines(s).len() ==> (#[trigger] all_lines(s)[i]).len() > 0,
        forall|i: int|
            0 <= i < all_lines(s).len() - 1 ==> (#[trigger] all_lines(s)[i])[all_lines(s)[i].len()
                - 1] == 10,
        forall|i: int, j: int|
            0 <= i < all_lines(s).len() && 0 <= j < all_lines(s)[i].len() - 1
                ==> #[trigger] all_lines(s)[i][j] != 10,
{
    law_lines_keep_every_byte(s);
    law_lines_are_cut_after_each_newline(s);
    let full = full_lines(s);
    let all = all_lines(s);
    assert forall|i: int| 0 <= i < all.len() implies (#[trigger] all[i]).len() > 0 by {
        if i < full.len() {
            assert(all[i] == full[i]);
        }
    }
    assert forall|i: int| 0 <= i < all.len() - 1 implies (#[trigger] all[i])[all[i].len() - 1]
        == 10 by {
        assert(all[i] == full[i]);
        assert(full[i][full[i].len() - 1] == 10);
    }
    assert forall|i: int, j: int| 0 <= i < all.len() && 0 <= j < all[i].len() - 1 implies
        #[trigger] all[i][j] != 10 by {
        if i < full.len() {
            assert(all[i] == full[i]);
            assert(full[i][j] != 10);
        } else {
            assert(all[i] == unfinished_line(s));
            assert(unfinished_line(s)[j] != 10);
        }
    }
}

} // verus!
