//! Error display: a diagnostic with the source line, a caret under the
//! column, the reason and a suggestion.
use vstd::prelude::*;
use crate::parser::{reason_text, suggestion_text, ParseError, ParseErrorView};
use crate::text::{
    chars_of, dec, lines, owned, push_chars, push_dec, push_repeat, push_str, repeat,
    split_lines,
};

verus! {

/// Line `n` (1-based) of `source`, or nothing when there is no such line.
pub open spec fn source_line(source: Seq<char>, n: int) -> Seq<char> {
    let ls = lines(source);
    let idx = if n >= 1 {
        n - 1
    } else {
        0
    };
    if idx < ls.len() {
        ls[idx]
    } else {
        Seq::empty()
    }
}

/// The full diagnostic for `e` in `file`; the caret stands under column
/// `e.col` of the quoted source line (after `  `, the line number and ` │ `),
/// here for column 1:
///
/// ```text
/// file:line:col  无法解析
///   line │ source line
///          ^
/// 原因：reason
/// 建议：suggestion
/// ```
pub open spec fn diagnostic_text(file: Seq<char>, source: Seq<char>, e: ParseErrorView) -> Seq<char> {
    let line_no = dec(e.line as nat);
    let caret_pad = if e.col >= 1 {
        (e.col - 1) as nat
    } else {
        0
    };
    file + ":"@ + line_no + ":"@ + dec(e.col as nat) + "  无法解析\n"@ + "  "@ + line_no + " │ "@
        + source_line(source, e.line) + "\n"@ + repeat(' ', line_no.len()) + "     "@ + repeat(
        ' ',
        caret_pad,
    ) + "^"@ + "\n"@ + "原因："@ + reason_text(e.kind) + "\n"@ + "建议："@ + suggestion_text(e.kind)
}

/// Builds the complete diagnostic text (file prefix, source line, caret,
/// reason, suggestion).
pub fn format_error(file: &str, source: &str, err: &ParseError) -> (res: String)
    ensures
        res@ == diagnostic_text(file@, source@, err@),
{
    let src = chars_of(source);
    let ls = split_lines(&src);
    let idx = err.line.saturating_sub(1);
    let line_no = crate::text::dec_string(err.line as u64);
    let line_no_chars = chars_of(line_no.as_str());
    let ghost g = err@;
    let mut s = owned(file);
    push_str(&mut s, ":");
    push_dec(&mut s, err.line as u64);
    push_str(&mut s, ":");
    push_dec(&mut s, err.col as u64);
    push_str(&mut s, "  无法解析\n");
    push_str(&mut s, "  ");
    push_chars(&mut s, &line_no_chars);
    push_str(&mut s, " │ ");
    if idx < ls.len() {
        push_chars(&mut s, &ls[idx]);
    }
    push_str(&mut s, "\n");
    push_repeat(&mut s, ' ', line_no_chars.len());
    push_str(&mut s, "     ");
    push_repeat(&mut s, ' ', err.col.saturating_sub(1));
    push_str(&mut s, "^");
    push_str(&mut s, "\n");
    push_str(&mut s, "原因：");
    let reason = err.message();
    push_str(&mut s, reason.as_str());
    push_str(&mut s, "\n");
    push_str(&mut s, "建议：");
    let sugg = err.suggestion();
    push_str(&mut s, sugg.as_str());
    assert(source_line(source@, g.line) == if idx < ls@.len() {
        ls@[idx as int]@
    } else {
        Seq::<char>::empty()
    });
    assert(s@ =~= diagnostic_text(file@, source@, g));
    s
}

} // verus!
