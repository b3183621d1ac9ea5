//! Decisions of the `mm` command line: exit codes and error reports,
//! argument checks, the overwrite prompt's answer, and the key map listings.
use vstd::prelude::*;
use crate::diagnostics::{diagnostic_text, format_error};
use crate::parser::{ParseError, ParseErrorView};
use crate::keymap::{lemma_resolve_fits, Keymap, KeymapView};
use crate::model::{note_name, note_name_of};
use crate::text::{
    chars_of, dec, dec_int, find_char, find_from, lines, lower, lower_chars, owned, push_chars, push_int, push_one, push_repeat,
    push_str, repeat, slice_chars, spells, split_lines, trim, trim_chars,
};

verus! {

/// A failed command, by kind.
#[derive(Debug, Clone)]
pub enum AppError {
    Parse { file: String, source: String, error: ParseError },
    Render(String),
    Play(String),
    Config(String),
    Args(String),
}

pub enum AppErrorView {
    Parse { file: Seq<char>, source: Seq<char>, error: ParseErrorView },
    Render(Seq<char>),
    Play(Seq<char>),
    Config(Seq<char>),
    Args(Seq<char>),
}

impl View for AppError {
    type V = AppErrorView;

    open spec fn view(&self) -> AppErrorView {
        match self {
            AppError::Parse { file, source, error } => AppErrorView::Parse {
                file: file@,
                source: source@,
                error: error@,
            },
            AppError::Render(m) => AppErrorView::Render(m@),
            AppError::Play(m) => AppErrorView::Play(m@),
            AppError::Config(m) => AppErrorView::Config(m@),
            AppError::Args(m) => AppErrorView::Args(m@),
        }
    }
}

/// Process exit code: 1 parse failure, 2 render or playback failure,
/// 3 argument or configuration error.
pub open spec fn exit_code_of(e: AppErrorView) -> u8 {
    match e {
        AppErrorView::Parse { .. } => 1,
        AppErrorView::Render(_) | AppErrorView::Play(_) => 2,
        AppErrorView::Config(_) | AppErrorView::Args(_) => 3,
    }
}

/// One-line message of a failed command.
pub open spec fn app_message_text(e: AppErrorView) -> Seq<char> {
    match e {
        AppErrorView::Parse { .. } => "解析失败"@,
        AppErrorView::Render(m) => "渲染失败："@ + m,
        AppErrorView::Play(m) => "播放失败："@ + m,
        AppErrorView::Config(m) => "配置错误："@ + m,
        AppErrorView::Args(m) => "参数错误："@ + m,
    }
}

/// What is written to standard error for a failed command.
pub open spec fn app_report_text(e: AppErrorView) -> Seq<char> {
    match e {
        AppErrorView::Parse { file, source, error } => diagnostic_text(file, source, error),
        _ => "mm: 错误: "@ + app_message_text(e),
    }
}

impl AppError {
    pub fn exit_code(&self) -> (res: u8)
        ensures
            res == exit_code_of(self@),
    {
        match self {
            AppError::Parse { .. } => 1,
            AppError::Render(_) | AppError::Play(_) => 2,
            AppError::Config(_) | AppError::Args(_) => 3,
        }
    }

    pub fn message(&self) -> (res: String)
        ensures
            res@ == app_message_text(self@),
    {
        let (mut s, m) = match self {
            AppError::Parse { .. } => {
                return owned("解析失败");
            },
            AppError::Render(m) => (owned("渲染失败："), m),
            AppError::Play(m) => (owned("播放失败："), m),
            AppError::Config(m) => (owned("配置错误："), m),
            AppError::Args(m) => (owned("参数错误："), m),
        };
        push_str(&mut s, m.as_str());
        s
    }

    /// The text to print for this error: the full diagnostic for a parse
    /// failure, `mm: 错误: <message>` otherwise.
    pub fn report(&self) -> (res: String)
        ensures
            res@ == app_report_text(self@),
    {
        match self {
            AppError::Parse { file, source, error } => format_error(file.as_str(), source.as_str(), error),
            _ => {
                let mut s = owned("mm: 错误: ");
                let m = self.message();
                push_str(&mut s, m.as_str());
                s
            },
        }
    }
}

/// The argument error `render` reports, if any: no score file, a sample
/// rate outside 8000–192000, or `-o` with several scores.
pub open spec fn render_args_problem(file_count: int, rate: u32, has_out: bool) -> Option<Seq<char>> {
    if file_count == 0 {
        Some("render 至少需要一个谱面文件"@)
    } else if !(8000 <= rate <= 192000) {
        Some("采样率越界，合法范围 8000–192000"@)
    } else if has_out && file_count > 1 {
        Some("-o 仅适用于单个谱面；多谱面输出文件名为各自输入名"@)
    } else {
        None
    }
}

/// Checks the arguments of `render` before any file is read.
pub fn check_render_args(file_count: usize, rate: u32, has_out: bool) -> (res: Result<(), AppError>)
    ensures
        match render_args_problem(file_count as int, rate, has_out) {
            None => res is Ok,
            Some(m) => res matches Err(e) && e@ == AppErrorView::Args(m),
        },
{
    if file_count == 0 {
        return Err(AppError::Args(owned("render 至少需要一个谱面文件")));
    }
    if !(8000 <= rate && rate <= 192000) {
        return Err(AppError::Args(owned("采样率越界，合法范围 8000–192000")));
    }
    if has_out && file_count > 1 {
        return Err(AppError::Args(owned("-o 仅适用于单个谱面；多谱面输出文件名为各自输入名")));
    }
    Ok(())
}

/// Does an answer to the overwrite prompt mean yes (`y` or `yes`, in any
/// ASCII case, surrounding whitespace ignored)?
pub open spec fn affirmative(answer: Seq<char>) -> bool {
    let t = lower(trim(answer));
    t == "y"@ || t == "yes"@
}

pub fn is_affirmative(answer: &str) -> (res: bool)
    ensures
        res == affirmative(answer@),
{
    let v = chars_of(answer);
    let t = lower_chars(&trim_chars(&v));
    spells(&t, "y") || spells(&t, "yes")
}

} // verus!

verus! {

/// The part of a score line that the key listing reads: the text before
/// any `#`, trimmed; nothing for a directive line.
pub open spec fn listed_part(raw: Seq<char>) -> Seq<char> {
    let l = trim(raw.take(find_from(raw, 0, '#')));
    if l.len() == 0 || l[0] == '@' {
        Seq::empty()
    } else {
        l
    }
}

/// Occurrences of `c` in `s[0..i)`.
pub open spec fn count_upto(s: Seq<char>, i: int, c: char) -> nat
    decreases i,
{
    if i <= 0 {
        0
    } else {
        count_upto(s, i - 1, c) + if s[i - 1] == c {
            1nat
        } else {
            0nat
        }
    }
}

/// Occurrences of `c` in the listed parts of `ls[0..k)`.
pub open spec fn usage_upto(ls: Seq<Seq<char>>, k: int, c: char) -> nat
    decreases k,
{
    if k <= 0 {
        0
    } else {
        let part = listed_part(ls[k - 1]);
        usage_upto(ls, k - 1, c) + count_upto(part, part.len() as int, c)
    }
}

/// Occurrences of `c` in the score text `source`, outside directives and
/// comments.
pub open spec fn usage(source: Seq<char>, c: char) -> nat {
    usage_upto(lines(source), lines(source).len() as int, c)
}

/// The used characters among `order[0..j)`, in key-map order, each with its
/// number of occurrences.
pub open spec fn usage_list(order: Seq<char>, source: Seq<char>, j: int) -> Seq<(char, nat)>
    decreases j,
{
    if j <= 0 {
        Seq::empty()
    } else {
        let prev = usage_list(order, source, j - 1);
        let c = order[j - 1];
        if usage(source, c) > 0 {
            prev.push((c, usage(source, c)))
        } else {
            prev
        }
    }
}

proof fn lemma_count_upto_bound(s: Seq<char>, i: int, c: char)
    requires
        0 <= i,
    ensures
        count_upto(s, i, c) <= i,
    decreases i,
{
    if i > 0 {
        lemma_count_upto_bound(s, i - 1, c);
    }
}

/// The note characters a score uses (outside directive lines and comments),
/// in key-map order, each with its number of occurrences.
pub fn used_note_chars(source: &str, km: &Keymap) -> (res: Vec<(char, usize)>)
    ensures
        res@.len() == usage_list(km@.order, source@, km@.order.len() as int).len(),
        forall|i: int|
            0 <= i < res@.len() ==> (#[trigger] res@[i]).0 == usage_list(
                km@.order,
                source@,
                km@.order.len() as int,
            )[i].0 && res@[i].1 == usage_list(km@.order, source@, km@.order.len() as int)[i].1,
{
    proof {
        use_type_invariant(km);
    }
    let src = chars_of(source);
    let ls = split_lines(&src);
    let ghost all = lines(source@);
    let order = km.char_order();
    let mut counts: Vec<usize> = Vec::new();
    while counts.len() < order.len()
        invariant
            counts@.len() <= order@.len(),
            forall|j: int| 0 <= j < counts@.len() ==> counts@[j] == 0,
        decreases order@.len() - counts@.len(),
    {
        counts.push(0);
    }
    assert(src@.len() == src.len());
    proof {
        crate::parser::lemma_lines_total(source@, 0);
        assert(all.skip(0) =~= all);
    }
    let ghost mut done: int = 0;
    let mut k: usize = 0;
    while k < ls.len()
        invariant
            k <= ls.len(),
            ls@.len() == all.len(),
            all == lines(source@),
            forall|j: int| 0 <= j < ls@.len() ==> #[trigger] ls@[j]@ == all[j],
            order@ == km@.order,
            counts@.len() == order@.len(),
            forall|j: int|
                0 <= j < counts@.len() ==> #[trigger] counts@[j] == usage_upto(all, k as int, order@[j]),
            forall|j: int| 0 <= j < counts@.len() ==> #[trigger] counts@[j] <= done,
            0 <= done,
            done + crate::parser::total_len(all.skip(k as int)) <= source@.len(),
            source@.len() == src@.len(),
            src@.len() <= usize::MAX,
            km@.order.no_duplicates(),
        decreases ls.len() - k,
    {
        let ghost rest = all.skip(k as int);
        assert(rest.drop_first() =~= all.skip(k + 1));
        assert(rest[0] == all[k as int]);
        let raw = &ls[k];
        let h = find_char(raw, 0, '#');
        let head = slice_chars(raw, 0, h);
        assert(head@ =~= raw@.take(h as int));
        let l = trim_chars(&head);
        let ghost part = listed_part(all[k as int]);
        if l.len() == 0 || l[0] == '@' {
            assert(part.len() == 0);
            assert forall|j: int| 0 <= j < counts@.len() implies #[trigger] counts@[j] == usage_upto(
                all,
                k + 1,
                order@[j],
            ) by {
                assert(count_upto(part, part.len() as int, order@[j]) == 0);
            }
        } else {
            assert(part == l@);
            let mut i: usize = 0;
            while i < l.len()
                invariant
                    i <= l.len(),
                    l@ == part,
                    l@.len() <= all[k as int].len(),
                    order@ == km@.order,
                    counts@.len() == order@.len(),
                    k < all.len(),
                    forall|j: int|
                        0 <= j < counts@.len() ==> #[trigger] counts@[j] == usage_upto(all, k as int, order@[j])
                            + count_upto(part, i as int, order@[j]),
                    forall|j: int| 0 <= j < counts@.len() ==> #[trigger] counts@[j] <= done + i,
                    0 <= done,
                    done + crate::parser::total_len(all.skip(k as int)) <= source@.len(),
                    crate::parser::total_len(all.skip(k as int)) == all[k as int].len()
                        + crate::parser::total_len(all.skip(k + 1)),
                    source@.len() == src@.len(),
                    src@.len() <= usize::MAX,
                    km@.order.no_duplicates(),
                decreases l.len() - i,
            {
                let c = l[i];
                match km.index_of(c) {
                    Some(idx) => {
                        let v = counts[idx];
                        counts.set(idx, v + 1);
                        proof {
                            assert forall|j: int| 0 <= j < counts@.len() implies #[trigger] counts@[j]
                                == usage_upto(all, k as int, order@[j]) + count_upto(part, i + 1, order@[j]) by {
                                if j != idx {
                                    assert(order@[j] != c);
                                }
                            }
                        }
                    },
                    None => {
                        assert forall|j: int| 0 <= j < counts@.len() implies #[trigger] counts@[j]
                            == usage_upto(all, k as int, order@[j]) + count_upto(part, i + 1, order@[j]) by {
                            assert(order@[j] != c) by {
                                assert(km@.order.contains(order@[j]));
                            }
                        }
                    },
                }
                i = i + 1;
            }
            proof {
                assert forall|j: int| 0 <= j < counts@.len() implies #[trigger] counts@[j] == usage_upto(
                    all,
                    k + 1,
                    order@[j],
                ) by {}
            }
        }
        proof {
            done = done + all[k as int].len();
        }
        k = k + 1;
    }
    let mut out: Vec<(char, usize)> = Vec::new();
    let mut j: usize = 0;
    let ghost want = usage_list(km@.order, source@, km@.order.len() as int);
    while j < order.len()
        invariant
            j <= order@.len(),
            order@ == km@.order,
            counts@.len() == order@.len(),
            forall|q: int| 0 <= q < counts@.len() ==> #[trigger] counts@[q] == usage(source@, order@[q]),
            out@.len() == usage_list(order@, source@, j as int).len(),
            forall|i: int|
                0 <= i < out@.len() ==> (#[trigger] out@[i]).0 == usage_list(order@, source@, j as int)[i].0
                    && out@[i].1 == usage_list(order@, source@, j as int)[i].1,
        decreases order@.len() - j,
    {
        if counts[j] > 0 {
            out.push((order[j], counts[j]));
        }
        j = j + 1;
    }
    out
}

} // verus!

verus! {

/// `s` padded with spaces on the right to at least `w` characters (`{:<w}`).
pub open spec fn pad_right(s: Seq<char>, w: nat) -> Seq<char> {
    if s.len() < w {
        s + repeat(' ', (w - s.len()) as nat)
    } else {
        s
    }
}

/// One entry of the key map table: `  c→name`, the name padded to 4.
pub open spec fn entry_text(km: KeymapView, c: char) -> Seq<char> {
    "  "@ + seq![c] + "→"@ + pad_right(note_name_of(km.pitch(c, 0) as u8), 4)
}

/// The entries of `order[from..to)`, concatenated.
pub open spec fn entries_text(km: KeymapView, from: int, to: int) -> Seq<char>
    decreases to - from,
{
    if to <= from {
        Seq::empty()
    } else {
        entries_text(km, from, to - 1) + entry_text(km, km.order[to - 1])
    }
}

/// Line `j` of the key map table: the entries of characters `6j .. 6j + 6`.
pub open spec fn listing_line(km: KeymapView, j: int) -> Seq<char> {
    let n = km.order.len() as int;
    let end = if 6 * j + 6 < n {
        6 * j + 6
    } else {
        n
    };
    entries_text(km, 6 * j, end)
}

fn push_padded(s: &mut String, t: &String, w: usize)
    ensures
        final(s)@ == old(s)@ + pad_right(t@, w as nat),
{
    let tv = chars_of(t.as_str());
    push_chars(s, &tv);
    if tv.len() < w {
        push_repeat(s, ' ', w - tv.len());
    }
}

/// The key map table, six entries per line, in character order.
pub fn keymap_table_lines(km: &Keymap) -> (res: Vec<String>)
    ensures
        res@.len() == (km@.order.len() + 5) / 6,
        forall|j: int| 0 <= j < res@.len() ==> #[trigger] res@[j]@ == listing_line(km@, j),
{
    proof {
        use_type_invariant(km);
    }
    let order = km.char_order();
    let n = order.len();
    let mut out: Vec<String> = Vec::new();
    let mut line = String::new();
    let mut i: usize = 0;
    while i < n
        invariant
            i <= n,
            n == km@.order.len(),
            order@ == km@.order,
            km@.wf(),
            out@.len() == i / 6,
            forall|j: int| 0 <= j < out@.len() ==> #[trigger] out@[j]@ == listing_line(km@, j),
            line@ == entries_text(km@, 6 * (i / 6), i as int),
        decreases n - i,
    {
        let c = order[i];
        proof {
            assert(km@.order.contains(c));
            lemma_resolve_fits(km@, c, 0);
        }
        let midi = match km.resolve(c, 0) {
            Some(m) => m,
            None => 0,
        };
        let ghost before = line@;
        push_str(&mut line, "  ");
        push_one(&mut line, c);
        push_str(&mut line, "→");
        let name = note_name(#[verifier::truncate] (midi as u8));
        push_padded(&mut line, &name, 4);
        assert(line@ =~= before + entry_text(km@, c));
        assert(line@ == entries_text(km@, 6 * (i / 6), i + 1));
        if (i + 1) % 6 == 0 {
            out.push(line);
            line = String::new();
            assert(line@ =~= entries_text(km@, 6 * ((i + 1) / 6), i + 1));
        }
        i = i + 1;
    }
    // the last line holds the entries after the final full group of six
    if n % 6 != 0 {
        out.push(line);
    }
    out
}

} // verus!

verus! {

/// `t[0..n)` in decimal, separated by `, `.
pub open spec fn joined_table(t: Seq<i8>, n: int) -> Seq<char>
    decreases n,
{
    if n <= 0 {
        Seq::empty()
    } else if n == 1 {
        dec_int(t[0] as int)
    } else {
        joined_table(t, n - 1) + ", "@ + dec_int(t[n - 1] as int)
    }
}

/// The pitch table line: `音高表: [0, 1, …]`.
pub open spec fn pitch_table_text(km: KeymapView) -> Seq<char> {
    "音高表: ["@ + joined_table(km.table, km.table.len() as int) + "]"@
}

pub fn pitch_table_line(km: &Keymap) -> (res: String)
    ensures
        res@ == pitch_table_text(km@),
{
    let t = km.pitch_table();
    let mut s = owned("音高表: [");
    let ghost start = s@;
    let mut i: usize = 0;
    while i < t.len()
        invariant
            i <= t.len(),
            t@ == km@.table,
            s@ == start + joined_table(t@, i as int),
        decreases t.len() - i,
    {
        let ghost before = s@;
        if i > 0 {
            push_str(&mut s, ", ");
        }
        push_int(&mut s, t[i] as i64);
        assert(s@ =~= start + joined_table(t@, i + 1));
        i = i + 1;
    }
    push_str(&mut s, "]");
    s
}

/// A line of the listing of the characters a score uses:
/// `  'c' xN    → name (MIDI p)`, the count padded to 4.
pub open spec fn usage_line_text(km: KeymapView, c: char, count: nat) -> Seq<char> {
    let p = km.pitch(c, 0);
    "  '"@ + seq![c] + "' x"@ + pad_right(dec(count), 4) + " → "@ + note_name_of(p as u8)
        + " (MIDI "@ + dec_int(p) + ")"@
}

pub fn usage_line(km: &Keymap, c: char, count: usize) -> (res: String)
    requires
        km@.order.contains(c),
    ensures
        res@ == usage_line_text(km@, c, count as nat),
{
    proof {
        use_type_invariant(km);
        lemma_resolve_fits(km@, c, 0);
    }
    let midi = match km.resolve(c, 0) {
        Some(m) => m,
        None => 0,
    };
    let mut s = owned("  '");
    push_one(&mut s, c);
    push_str(&mut s, "' x");
    let n = crate::text::dec_string(count as u64);
    push_padded(&mut s, &n, 4);
    push_str(&mut s, " → ");
    let name = note_name(#[verifier::truncate] (midi as u8));
    push_str(&mut s, name.as_str());
    push_str(&mut s, " (MIDI ");
    push_int(&mut s, midi as i64);
    push_str(&mut s, ")");
    s
}

} // verus!
