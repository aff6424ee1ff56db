use vstd::prelude::*;

use crate::app::{App, AppStatus};
use crate::stats::{StageMetrics, StageStatus};
use crate::text::{
    append_chars, boundary_index, chars_of, decimal, group_digits, group_thousands, is_boundary,
    lemma_boundary_unique, push_decimal, skip_chars, string_of, take_chars, thousands, utf8_len,
    utf8_len_of,
};

verus! {

/// `n` with ',' between groups of three digits ("1,234,567").
pub fn format_num(n: usize) -> (r: String)
    ensures
        r@ == thousands(n as nat),
{
    let mut d: Vec<char> = Vec::new();
    push_decimal(&mut d, n as u64);
    assert(d@ =~= decimal(n as nat));
    let g = group_digits(&d);
    string_of(&g)
}

/// The first characters of `s` that take exactly `n` bytes.
pub open spec fn byte_prefix(s: Seq<char>, n: int) -> Seq<char> {
    s.take(choose|k: int| 0 <= k <= s.len() && #[trigger] utf8_len(s.take(k)) == n)
}

/// The last characters of `s`, from byte `n` on.
pub open spec fn byte_suffix(s: Seq<char>, n: int) -> Seq<char> {
    s.skip(choose|k: int| 0 <= k <= s.len() && #[trigger] utf8_len(s.take(k)) == n)
}

/// `n` minus `k`, or 0 when `k` is larger (`usize::saturating_sub`).
pub open spec fn minus(n: int, k: int) -> int {
    if n >= k {
        n - k
    } else {
        0
    }
}

fn prefix_bytes(v: &Vec<char>, n: usize) -> (r: Vec<char>)
    requires
        is_boundary(v@, n as int),
    ensures
        r@ == byte_prefix(v@, n as int),
{
    let k = boundary_index(v, n);
    proof {
        let kk = choose|k: int| 0 <= k <= v@.len() && #[trigger] utf8_len(v@.take(k)) == n;
        lemma_boundary_unique(v@, k as int, kk);
    }
    take_chars(v, k)
}

fn suffix_bytes(v: &Vec<char>, n: usize) -> (r: Vec<char>)
    requires
        is_boundary(v@, n as int),
    ensures
        r@ == byte_suffix(v@, n as int),
{
    let k = boundary_index(v, n);
    proof {
        let kk = choose|k: int| 0 <= k <= v@.len() && #[trigger] utf8_len(v@.take(k)) == n;
        lemma_boundary_unique(v@, k as int, kk);
    }
    skip_chars(v, k)
}

/// `s` if it takes at most `limit` bytes, else its first `keep` bytes followed by "...".
pub open spec fn clipped(s: Seq<char>, limit: int, keep: int) -> Seq<char> {
    if utf8_len(s) <= limit {
        s
    } else {
        byte_prefix(s, keep) + "..."@
    }
}

fn clip(v: &Vec<char>, limit: usize, keep: usize) -> (r: Vec<char>)
    requires
        utf8_len(v@) <= usize::MAX,
        utf8_len(v@) > limit ==> is_boundary(v@, keep as int),
    ensures
        r@ == clipped(v@, limit as int, keep as int),
{
    if utf8_len_of(v) <= limit {
        return v.clone();
    }
    let mut r = prefix_bytes(v, keep);
    append_chars(&mut r, &chars_of("..."));
    r
}

/// A command cut to `max_len` bytes for the stage table: kept whole when it fits, else its
/// first `max_len - 3` bytes and "...".
pub fn shorten_command(cmd: &str, max_len: usize) -> (r: String)
    requires
        utf8_len(cmd@) <= usize::MAX,
        utf8_len(cmd@) > max_len ==> is_boundary(cmd@, minus(max_len as int, 3)),
    ensures
        r@ == clipped(cmd@, max_len as int, minus(max_len as int, 3)),
{
    let v = chars_of(cmd);
    let r = clip(&v, max_len, max_len.saturating_sub(3));
    string_of(&r)
}

/// The pipeline text as the header shows it in `width` columns: whole when it takes at
/// most `width - 4` bytes, else its first `width - 7` bytes and "...".
pub fn header_pipeline_text(text: &str, width: usize) -> (r: String)
    requires
        utf8_len(text@) <= usize::MAX,
        utf8_len(text@) > minus(width as int, 4) ==> is_boundary(
            text@,
            minus(width as int, 7),
        ),
    ensures
        r@ == clipped(text@, minus(width as int, 4), minus(width as int, 7)),
{
    let v = chars_of(text);
    let r = clip(&v, width.saturating_sub(4), width.saturating_sub(7));
    string_of(&r)
}

/// An output line as the output pane shows it in `width` columns: whole when it takes at
/// most `width` bytes, else its first `width - 3` bytes and "...".
pub fn clip_output_line(line: &str, width: usize) -> (r: String)
    requires
        utf8_len(line@) <= usize::MAX,
        utf8_len(line@) > width ==> is_boundary(line@, minus(width as int, 3)),
    ensures
        r@ == clipped(line@, width as int, minus(width as int, 3)),
{
    let v = chars_of(line);
    let r = clip(&v, width, width.saturating_sub(3));
    string_of(&r)
}

/// The typed path as the file picker shows it in an input of `width` bytes: whole when it
/// fits, else "..." and its last `width - 3` bytes.
pub open spec fn input_text(buffer: Seq<char>, width: int) -> Seq<char> {
    if utf8_len(buffer) <= width {
        buffer
    } else {
        "..."@ + byte_suffix(buffer, minus(utf8_len(buffer) as int, minus(width, 3)))
    }
}

/// The typed path as the file picker shows it (see [`input_text`]).
pub fn file_input_display(buffer: &str, width: usize) -> (r: String)
    requires
        utf8_len(buffer@) <= usize::MAX,
        utf8_len(buffer@) > width ==> is_boundary(
            buffer@,
            minus(utf8_len(buffer@) as int, minus(width as int, 3)),
        ),
    ensures
        r@ == input_text(buffer@, width as int),
{
    let v = chars_of(buffer);
    let len = utf8_len_of(&v);
    if len <= width {
        return string_of(&v);
    }
    let start = len.saturating_sub(width.saturating_sub(3));
    let mut r = chars_of("...");
    let tail = suffix_bytes(&v, start);
    append_chars(&mut r, &tail);
    string_of(&r)
}

/// The lines the output pane shows: from the scroll position (kept on a line) for as many
/// lines as fit below its header line, as the range `start..end`.
pub fn output_window(scroll: usize, total: usize, height: usize) -> (r: (usize, usize))
    requires
        total > 0,
    ensures
        r.0 == (if scroll < total {
            scroll as int
        } else {
            total - 1
        }),
        r.1 == (if r.0 + minus(height as int, 1) < total {
            r.0 + minus(height as int, 1)
        } else {
            total as int
        }),
        r.0 < total,
        r.1 <= total,
{
    let start = if scroll < total - 1 {
        scroll
    } else {
        total - 1
    };
    let visible = height.saturating_sub(1);
    let end = if visible < total - start {
        start + visible
    } else {
        total
    };
    (start, end)
}

/// "Showing <start + 1>-<end> of <total> lines (including empty lines!)".
pub open spec fn output_header_text(start: nat, end: nat, total: nat) -> Seq<char> {
    "Showing "@ + decimal(start + 1) + "-"@ + decimal(end) + " of "@ + thousands(total)
        + " lines (including empty lines!)"@
}

/// The output pane's header line for the lines `start..end` of `total`.
pub fn output_header(start: usize, end: usize, total: usize) -> (r: String)
    requires
        start < usize::MAX,
    ensures
        r@ == output_header_text(start as nat, end as nat, total as nat),
{
    let mut v = chars_of("Showing ");
    push_decimal(&mut v, (start + 1) as u64);
    append_chars(&mut v, &chars_of("-"));
    push_decimal(&mut v, end as u64);
    append_chars(&mut v, &chars_of(" of "));
    let t = format_num(total);
    append_chars(&mut v, &chars_of(t.as_str()));
    append_chars(&mut v, &chars_of(" lines (including empty lines!)"));
    string_of(&v)
}

/// A count for the stage table: "-" when zero, else grouped in thousands.
pub fn count_cell(n: usize) -> (r: String)
    ensures
        r@ == (if n == 0 {
            "-"@
        } else {
            thousands(n as nat)
        }),
{
    if n > 0 {
        format_num(n)
    } else {
        string_of(&chars_of("-"))
    }
}

/// The line counts a stage takes in and puts out, "<in>  →  <out>", or only what it puts
/// out when there is no stage before it.
pub open spec fn in_out_text(previous: Option<usize>, current: usize) -> Seq<char> {
    match previous {
        Some(p) => thousands(p as nat) + "  \u{2192}  "@ + thousands(current as nat),
        None => thousands(current as nat),
    }
}

/// The line counts a stage takes in and puts out (see [`in_out_text`]).
pub fn lines_in_out(previous: Option<usize>, current: usize) -> (r: String)
    ensures
        r@ == in_out_text(previous, current),
{
    match previous {
        Some(p) => {
            let mut v = chars_of(format_num(p).as_str());
            append_chars(&mut v, &chars_of("  \u{2192}  "));
            append_chars(&mut v, &chars_of(format_num(current).as_str()));
            string_of(&v)
        },
        None => format_num(current),
    }
}

/// The status line's stage count: "<n> stages" when a pipeline is loaded, else
/// "no pipeline".
pub fn stages_info(loaded: bool, n: usize) -> (r: String)
    ensures
        r@ == (if loaded {
            decimal(n as nat) + " stages"@
        } else {
            "no pipeline"@
        }),
{
    if loaded {
        let mut v: Vec<char> = Vec::new();
        push_decimal(&mut v, n as u64);
        append_chars(&mut v, &chars_of(" stages"));
        string_of(&v)
    } else {
        string_of(&chars_of("no pipeline"))
    }
}

/// 1024 to the power `k`.
pub open spec fn kib_power(k: nat) -> nat
    decreases k,
{
    if k == 0 {
        1
    } else {
        1024 * kib_power((k - 1) as nat)
    }
}

/// The unit a byte count is shown in: the largest of B, KB, MB, GB (0 to 3) whose size is
/// at most the count; B for counts below 1024.
pub fn byte_unit_index(n: usize) -> (k: usize)
    ensures
        k <= 3,
        k == 0 || kib_power(k as nat) <= n,
        k == 3 || n < kib_power((k + 1) as nat),
{
    let nn = n as u64;
    proof {
        assert(kib_power(0) == 1);
        assert(kib_power(1) == 1024);
        assert(kib_power(2) == 1048576);
        assert(kib_power(3) == 1073741824);
        assert(kib_power(4) == 1099511627776);
    }
    if nn < 1024 {
        0
    } else if nn < 1048576 {
        1
    } else if nn < 1073741824 {
        2
    } else {
        3
    }
}

/// The name of byte unit `k`.
pub fn byte_unit_name(k: usize) -> (r: String)
    requires
        k <= 3,
    ensures
        r@ == seq!["B"@, "KB"@, "MB"@, "GB"@][k as int],
{
    if k == 0 {
        string_of(&chars_of("B"))
    } else if k == 1 {
        string_of(&chars_of("KB"))
    } else if k == 2 {
        string_of(&chars_of("MB"))
    } else {
        string_of(&chars_of("GB"))
    }
}

/// A byte count below 1024, as shown: "<n> B".
pub fn format_whole_bytes(n: usize) -> (r: String)
    ensures
        r@ == decimal(n as nat) + " B"@,
{
    let mut v: Vec<char> = Vec::new();
    push_decimal(&mut v, n as u64);
    append_chars(&mut v, &chars_of(" B"));
    string_of(&v)
}


/// How a piece of text is coloured.
#[derive(Debug, Clone, Copy, PartialEq, Eq, Structural)]
pub enum Tone {
    Gray,
    Green,
    Red,
}

/// The symbol of a stage's status in the stage table.
pub open spec fn stage_icon_text(status: StageStatus) -> Seq<char> {
    match status {
        StageStatus::Pending => "\u{25cb}"@,
        StageStatus::Running => "\u{25cf}"@,
        StageStatus::Completed => "\u{2713}"@,
    }
}

/// The stage table's first cell: the status symbol and the stage number.
pub fn stage_label(m: &StageMetrics) -> (r: String)
    ensures
        r@ == stage_icon_text(m.status) + " "@ + decimal(m.stage as nat),
{
    let mut v = match m.status {
        StageStatus::Pending => chars_of("\u{25cb}"),
        StageStatus::Running => chars_of("\u{25cf}"),
        StageStatus::Completed => chars_of("\u{2713}"),
    };
    append_chars(&mut v, &chars_of(" "));
    push_decimal(&mut v, m.stage as u64);
    string_of(&v)
}

/// The status line's symbol and colour: a circle while idle, a dot while running, and
/// once completed a check mark for exit code 0, else a cross.
pub fn status_badge(status: AppStatus, exit_status: Option<i32>) -> (r: (String, Tone))
    ensures
        r.0@ == match status {
            AppStatus::Idle => "\u{25cb}"@,
            AppStatus::Running => "\u{25cf}"@,
            AppStatus::Completed => if exit_status == Some(0i32) {
                "\u{2713}"@
            } else {
                "\u{2717}"@
            },
        },
        r.1 == match status {
            AppStatus::Idle => Tone::Gray,
            AppStatus::Running => Tone::Green,
            AppStatus::Completed => if exit_status == Some(0i32) {
                Tone::Green
            } else {
                Tone::Red
            },
        },
{
    match status {
        AppStatus::Idle => (string_of(&chars_of("\u{25cb}")), Tone::Gray),
        AppStatus::Running => (string_of(&chars_of("\u{25cf}")), Tone::Green),
        AppStatus::Completed => {
            if exit_status == Some(0i32) {
                (string_of(&chars_of("\u{2713}")), Tone::Green)
            } else {
                (string_of(&chars_of("\u{2717}")), Tone::Red)
            }
        },
    }
}

/// What the output pane says when the selected stage has no output yet.
pub fn empty_output_message(status: AppStatus) -> (r: String)
    ensures
        r@ == (if status == AppStatus::Running {
            "Waiting for stage output..."@
        } else {
            "No output captured for this stage."@
        }),
{
    if status == AppStatus::Running {
        string_of(&chars_of("Waiting for stage output..."))
    } else {
        string_of(&chars_of("No output captured for this stage."))
    }
}

/// The footer's run and abort labels: "Rerun" once a run completed, and "Abort" only while
/// one is running.
pub fn footer_labels(status: AppStatus) -> (r: (String, String))
    ensures
        r.0@ == (if status == AppStatus::Completed {
            " [R] Rerun "@
        } else {
            " [R] Run "@
        }),
        r.1@ == (if status == AppStatus::Running {
            " [X] Abort "@
        } else {
            ""@
        }),
{
    let run = if status == AppStatus::Completed {
        string_of(&chars_of(" [R] Rerun "))
    } else {
        string_of(&chars_of(" [R] Run "))
    };
    let abort = if status == AppStatus::Running {
        string_of(&chars_of(" [X] Abort "))
    } else {
        string_of(&chars_of(""))
    };
    (run, abort)
}

/// The suggestions the file picker lists: at most this many.
pub const PICKER_ROWS: usize = 8;

/// One suggestion line of the file picker.
pub struct PickerItem {
    pub text: String,
    pub selected: bool,
}

/// The text of the file picker: the typed path as shown, the suggestions' count, the
/// listed suggestions, how many more there are, whether nothing matches, and the help
/// line.
pub struct PickerView {
    pub input: String,
    pub count: Option<String>,
    pub items: Vec<PickerItem>,
    pub more: Option<String>,
    pub no_match: bool,
    pub help: String,
}

/// The smaller of `a` and `b`.
pub open spec fn min_nat(a: nat, b: nat) -> nat {
    if a < b {
        a
    } else {
        b
    }
}

/// The `i`-th listed suggestion: an arrow before the selected one.
pub open spec fn picker_item_text(name: Seq<char>, selected: bool) -> Seq<char> {
    "   "@ + (if selected {
        "\u{2192} "@
    } else {
        "  "@
    }) + name
}

/// What the file picker shows of `app` in an input of `input_width` bytes.
pub fn picker_view(app: &App, input_width: usize) -> (r: PickerView)
    requires
        utf8_len(app.file_input_buffer@) <= usize::MAX,
        utf8_len(app.file_input_buffer@) > input_width ==> is_boundary(
            app.file_input_buffer@,
            minus(utf8_len(app.file_input_buffer@) as int, minus(input_width as int, 3)),
        ),
    ensures
        ({
            let s = app.file_suggestions@;
            let n = s.len();
            &&& r.input@ == input_text(app.file_input_buffer@, input_width as int)
            &&& (n == 0 ==> r.count is None)
            &&& (n > 0 ==> (r.count matches Some(c) && c@ == " ("@ + decimal(
                min_nat(n, PICKER_ROWS as nat),
            ) + "/"@ + decimal(n) + ")"@))
            &&& r.items@.len() == min_nat(n, PICKER_ROWS as nat)
            &&& forall|i: int|
                0 <= i < r.items@.len() ==> {
                    &&& (#[trigger] r.items@[i]).selected == (i == app.selected_suggestion)
                    &&& r.items@[i].text@ == picker_item_text(s[i]@, i == app.selected_suggestion)
                }
            &&& (n > PICKER_ROWS ==> (r.more matches Some(m) && m@ == "   \u{2026} and "@
                + decimal((n - PICKER_ROWS) as nat) + " more"@))
            &&& (n <= PICKER_ROWS ==> r.more is None)
            &&& r.no_match == (n == 0 && app.file_input_buffer@.len() > 0)
            &&& r.help@ == (if n == 0 {
                "  Enter to load, Esc to cancel"@
            } else {
                "  Enter to load  \u{2191}/\u{2193} Navigate  Tab Cycle  Esc Cancel"@
            })
        }),
{
    let n = app.file_suggestions.len();
    let input = file_input_display(app.file_input_buffer.as_str(), input_width);
    let shown = if n < PICKER_ROWS {
        n
    } else {
        PICKER_ROWS
    };
    let count = if n == 0 {
        None
    } else {
        let mut v = chars_of(" (");
        push_decimal(&mut v, shown as u64);
        append_chars(&mut v, &chars_of("/"));
        push_decimal(&mut v, n as u64);
        append_chars(&mut v, &chars_of(")"));
        Some(string_of(&v))
    };
    let mut items: Vec<PickerItem> = Vec::new();
    for i in 0..shown
        invariant
            shown <= n,
            n == app.file_suggestions@.len(),
            items@.len() == i,
            forall|k: int|
                0 <= k < i ==> {
                    &&& (#[trigger] items@[k]).selected == (k == app.selected_suggestion)
                    &&& items@[k].text@ == picker_item_text(
                        app.file_suggestions@[k]@,
                        k == app.selected_suggestion,
                    )
                },
    {
        let selected = i == app.selected_suggestion;
        let mut v = chars_of("   ");
        if selected {
            append_chars(&mut v, &chars_of("\u{2192} "));
        } else {
            append_chars(&mut v, &chars_of("  "));
        }
        append_chars(&mut v, &chars_of(app.file_suggestions[i].as_str()));
        items.push(PickerItem { text: string_of(&v), selected });
    }
    let more = if n > PICKER_ROWS {
        let mut v = chars_of("   \u{2026} and ");
        push_decimal(&mut v, (n - PICKER_ROWS) as u64);
        append_chars(&mut v, &chars_of(" more"));
        Some(string_of(&v))
    } else {
        None
    };
    let no_match = n == 0 && !app.file_input_buffer.as_str().is_empty();
    let help = if n == 0 {
        string_of(&chars_of("  Enter to load, Esc to cancel"))
    } else {
        string_of(&chars_of("  Enter to load  \u{2191}/\u{2193} Navigate  Tab Cycle  Esc Cancel"))
    };
    PickerView { input, count, items, more, no_match, help }
}


/// What the stage details panel shows of the selected stage: its index (kept among the
/// stages), its command, its status, and, once it has reported, its lines in and out and,
/// after the first stage, the lines it dropped.
pub struct DetailView {
    pub index: usize,
    pub command: String,
    pub status: StageStatus,
    pub in_out: Option<String>,
    pub filtered: Option<usize>,
}

/// The stage details panel of `app`; none when there are no stages.
pub fn detail_view(app: &App) -> (r: Option<DetailView>)
    requires
        app.wf(),
    ensures
        r is None <==> app.metrics@.len() == 0,
        r matches Some(v) ==> {
            let m = app.metrics@;
            let idx = if app.selected < m.len() {
                app.selected as int
            } else {
                m.len() - 1
            };
            &&& v.index == idx
            &&& v.command@ == match app.pipeline {
                Some(p) => p.stages@[idx]@,
                None => Seq::<char>::empty(),
            }
            &&& v.status == m[idx].status
            &&& (m[idx].status == StageStatus::Pending ==> v.in_out is None && v.filtered is None)
            &&& (m[idx].status != StageStatus::Pending ==> (v.in_out matches Some(t) && t@
                == in_out_text(
                if idx > 0 {
                    Some(m[idx - 1].total_lines)
                } else {
                    None
                },
                m[idx].total_lines,
            )))
            &&& (idx == 0 ==> v.filtered is None)
            &&& (m[idx].status != StageStatus::Pending && idx > 0 ==> match v.filtered {
                Some(f) => app.filtered_spec(idx as nat) == Some(f as nat),
                None => app.filtered_spec(idx as nat) is None,
            })
        },
{
    let n = app.metrics.len();
    if n == 0 {
        return None;
    }
    let idx = if app.selected < n {
        app.selected
    } else {
        n - 1
    };
    let command = match &app.pipeline {
        Some(p) => p.stages[idx].clone(),
        None => String::new(),
    };
    let stage = &app.metrics[idx];
    let status = stage.status;
    let (in_out, filtered) = if status == StageStatus::Pending {
        (None, None)
    } else {
        let previous = if idx > 0 {
            Some(app.metrics[idx - 1].total_lines)
        } else {
            None
        };
        let text = lines_in_out(previous, stage.total_lines);
        let f = if idx > 0 {
            app.filtered_lines(idx)
        } else {
            None
        };
        (Some(text), f)
    };
    Some(DetailView { index: idx, command, status, in_out, filtered })
}

} // verus!
