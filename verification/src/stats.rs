use vstd::prelude::*;

use crate::pipeline::stats_text;
use crate::text::{
    chars_eq, chars_of, decimal, is_digit, join_with, lemma_decimal_value, lemma_lines_of_joined,
    lemma_lines_of_terminated, lemma_parse_decimal, lines_chars, lines_of, parse_unsigned_spec,
    parse_usize, string_of, strings_of, views,
};

verus! {

/// Where a stage is in its run, as its statistics file says.
#[derive(Debug, Clone, Copy, PartialEq, Eq, Structural)]
pub enum StageStatus {
    Pending,
    Running,
    Completed,
}

/// What is known of one stage. The two rates are kept as the text of the statistics
/// file's third and fourth lines; the viewer reads them as decimal fractions, 0.0 when
/// they do not read as one.
#[derive(Debug, Clone)]
pub struct StageMetrics {
    pub stage: usize,
    pub command: String,
    pub total_lines: usize,
    pub total_bytes: usize,
    pub lines_per_second: String,
    pub bytes_per_second: String,
    pub status: StageStatus,
}

/// `v` read as a `usize`, 0 when it does not read as one.
pub open spec fn usize_or_zero(v: Seq<char>) -> nat {
    match parse_unsigned_spec(v, usize::MAX as nat) {
        Some(n) => n,
        None => 0,
    }
}

/// The metrics that a statistics file's text gives for stage `stage`: `None` when it has
/// fewer than four lines; else the counts from its first two lines, the rates from the
/// next two, and "completed" on a fifth line for a completed stage.
pub open spec fn stats_outcome(content: Seq<char>, stage: nat, r: Option<StageMetrics>) -> bool {
    let lines = lines_of(content);
    if lines.len() < 4 {
        r is None
    } else {
        r matches Some(m) && m.stage == stage && m.command@.len() == 0 && m.total_lines
            == usize_or_zero(lines[0]) && m.total_bytes == usize_or_zero(lines[1])
            && m.lines_per_second@ == lines[2] && m.bytes_per_second@ == lines[3] && m.status == (
        if lines.len() >= 5 && lines[4] == "completed"@ {
            StageStatus::Completed
        } else {
            StageStatus::Running
        })
    }
}

impl StageMetrics {
    /// A stage that has reported nothing yet.
    pub fn pending(stage: usize, command: String) -> (m: Self)
        ensures
            m.stage == stage,
            m.command == command,
            m.total_lines == 0,
            m.total_bytes == 0,
            m.lines_per_second@.len() == 0,
            m.bytes_per_second@.len() == 0,
            m.status == StageStatus::Pending,
    {
        StageMetrics {
            stage,
            command,
            total_lines: 0,
            total_bytes: 0,
            lines_per_second: String::new(),
            bytes_per_second: String::new(),
            status: StageStatus::Pending,
        }
    }
}

/// Reads the text of stage `stage`'s statistics file.
pub fn parse_stats(content: &str, stage: u32) -> (r: Option<StageMetrics>)
    ensures
        stats_outcome(content@, stage as nat, r),
{
    let v = chars_of(content);
    let lines = lines_chars(&v);
    let ghost ls = lines_of(content@);
    assert(lines@.map_values(|p: Vec<char>| p@) == ls);
    if lines.len() < 4 {
        return None;
    }
    assert(lines@[0]@ == ls[0] && lines@[1]@ == ls[1] && lines@[2]@ == ls[2] && lines@[3]@ == ls[3]);
    let total_lines = match parse_usize(&lines[0]) {
        Some(n) => n,
        None => 0,
    };
    let total_bytes = match parse_usize(&lines[1]) {
        Some(n) => n,
        None => 0,
    };
    let completed = chars_of("completed");
    let status = if lines.len() >= 5 && chars_eq(&lines[4], &completed) {
        StageStatus::Completed
    } else {
        StageStatus::Running
    };
    proof {
        if lines.len() >= 5 {
            assert(lines@[4]@ == ls[4]);
        }
    }
    Some(
        StageMetrics {
            stage: stage as usize,
            command: String::new(),
            total_lines,
            total_bytes,
            lines_per_second: string_of(&lines[2]),
            bytes_per_second: string_of(&lines[3]),
            status,
        },
    )
}

/// The metrics of stage `inx + 1` (0-based `inx`): what its statistics file says, if it
/// could be read and says enough, else a pending stage; with its command, empty when
/// `commands` has none for it.
pub open spec fn stage_metrics_of(
    inx: int,
    commands: Seq<String>,
    contents: Seq<Option<String>>,
    m: StageMetrics,
) -> bool {
    let stage_num = (inx + 1) as u32;
    let command = if inx < commands.len() {
        commands[inx]@
    } else {
        Seq::<char>::empty()
    };
    let read = if inx < contents.len() {
        contents[inx]
    } else {
        None
    };
    &&& m.command@ == command
    &&& match read {
        Some(text) if lines_of(text@).len() >= 4 => {
            let lines = lines_of(text@);
            &&& m.stage == stage_num as nat
            &&& m.total_lines == usize_or_zero(lines[0])
            &&& m.total_bytes == usize_or_zero(lines[1])
            &&& m.lines_per_second@ == lines[2]
            &&& m.bytes_per_second@ == lines[3]
            &&& m.status == (if lines.len() >= 5 && lines[4] == "completed"@ {
                StageStatus::Completed
            } else {
                StageStatus::Running
            })
        },
        _ => {
            &&& m.stage == stage_num as nat
            &&& m.total_lines == 0
            &&& m.total_bytes == 0
            &&& m.lines_per_second@.len() == 0
            &&& m.bytes_per_second@.len() == 0
            &&& m.status == StageStatus::Pending
        },
    }
}

/// The metrics of stages `1..=num_stages`, from the texts of their statistics files
/// (`contents[i]` for stage `i + 1`, `None` when that file could not be read).
pub fn collect_all(num_stages: usize, commands: &Vec<String>, contents: &Vec<Option<String>>) -> (r:
    Vec<StageMetrics>)
    ensures
        r@.len() == num_stages,
        forall|i: int|
            0 <= i < num_stages ==> stage_metrics_of(i, commands@, contents@, #[trigger] r@[i]),
{
    let mut results: Vec<StageMetrics> = Vec::new();
    for inx in 0..num_stages
        invariant
            results@.len() == inx,
            forall|i: int|
                0 <= i < inx ==> stage_metrics_of(i, commands@, contents@, #[trigger] results@[i]),
    {
        let stage_num = (inx + 1) as u32;
        let command = if inx < commands.len() {
            commands[inx].clone()
        } else {
            String::new()
        };
        let parsed = if inx < contents.len() {
            match &contents[inx] {
                Some(text) => parse_stats(text.as_str(), stage_num),
                None => None,
            }
        } else {
            None
        };
        let m = match parsed {
            Some(stage) => {
                let mut stage_metrics = stage;
                stage_metrics.command = command;
                stage_metrics
            },
            None => StageMetrics::pending(stage_num as usize, command),
        };
        results.push(m);
    }
    results
}

/// The lines of a stage's captured-output file.
pub fn stage_output_lines(content: &str) -> (r: Vec<String>)
    ensures
        views(r@) == lines_of(content@),
{
    let v = chars_of(content);
    let lines = lines_chars(&v);
    strings_of(&lines)
}


/// `s` fits on one line of a file: no '\n', and no '\r' at its end.
pub open spec fn one_line(s: Seq<char>) -> bool {
    !s.contains('\n') && (s.len() == 0 || s.last() != '\r')
}

proof fn lemma_decimal_one_line(n: nat)
    ensures
        one_line(decimal(n)),
{
    lemma_decimal_value(n);
    let d = decimal(n);
    if d.contains('\n') {
        let k = choose|k: int| 0 <= k < d.len() && d[k] == '\n';
        assert(is_digit(d[k]));
    }
    assert(is_digit(d[d.len() - 1]));
}

/// The word that a statistics file ends with: "completed" for a finished stage, else
/// "running".
pub open spec fn state_word(finished: bool) -> Seq<char> {
    if finished {
        "completed"@
    } else {
        "running"@
    }
}

/// The lines of a statistics file that an observer writes are its five fields, and the
/// two counts read back as themselves.
proof fn lemma_stats_text_lines(
    lines: nat,
    bytes: nat,
    lines_rate: Seq<char>,
    bytes_rate: Seq<char>,
    finished: bool,
)
    requires
        lines <= usize::MAX,
        bytes <= usize::MAX,
        one_line(lines_rate),
        one_line(bytes_rate),
    ensures
        lines_of(stats_text(lines, bytes, lines_rate, bytes_rate, finished)) == seq![
            decimal(lines),
            decimal(bytes),
            lines_rate,
            bytes_rate,
            state_word(finished),
        ],
        usize_or_zero(decimal(lines)) == lines,
        usize_or_zero(decimal(bytes)) == bytes,
        (state_word(finished) == "completed"@) == finished,
{
    reveal_strlit("\n");
    reveal_strlit("completed");
    reveal_strlit("running");
    let st = state_word(finished);
    let parts = seq![decimal(lines), decimal(bytes), lines_rate, bytes_rate, st];
    lemma_decimal_one_line(lines);
    lemma_decimal_one_line(bytes);
    assert(one_line(st)) by {
        if st.contains('\n') {
            let k = choose|k: int| 0 <= k < st.len() && st[k] == '\n';
        }
    }
    let nl = seq!['\n'];
    assert("\n"@ =~= nl);
    assert(join_with(parts.take(1), nl) == parts[0]);
    assert(parts.take(2).drop_last() =~= parts.take(1));
    assert(parts.take(3).drop_last() =~= parts.take(2));
    assert(parts.take(4).drop_last() =~= parts.take(3));
    assert(parts.take(5) =~= parts);
    assert(parts.drop_last() =~= parts.take(4));
    assert(join_with(parts.take(2), nl) == parts[0] + nl + parts[1]);
    assert(join_with(parts.take(3), nl) == parts[0] + nl + parts[1] + nl + parts[2]);
    assert(join_with(parts.take(4), nl) == parts[0] + nl + parts[1] + nl + parts[2] + nl
        + parts[3]);
    assert(join_with(parts, nl) == parts[0] + nl + parts[1] + nl + parts[2] + nl + parts[3] + nl
        + parts[4]);
    assert(join_with(parts, nl) + nl =~= stats_text(lines, bytes, lines_rate, bytes_rate, finished));
    lemma_lines_of_terminated(parts);
    lemma_parse_decimal(lines, usize::MAX as nat);
    lemma_parse_decimal(bytes, usize::MAX as nat);
    if !finished {
        assert("running"@ != "completed"@) by {
            assert("running"@.len() != "completed"@.len());
        }
    }
}

/// Law: the statistics file that an observer writes reads back as what it counted: its
/// line and byte counts, its rates as written, and its state (completed when finished,
/// else running), whenever the rates fit on one line each.
pub proof fn law_stats_file_reads_back(
    lines: nat,
    bytes: nat,
    lines_rate: Seq<char>,
    bytes_rate: Seq<char>,
    finished: bool,
    stage: nat,
    r: Option<StageMetrics>,
)
    requires
        lines <= usize::MAX,
        bytes <= usize::MAX,
        one_line(lines_rate),
        one_line(bytes_rate),
        stats_outcome(stats_text(lines, bytes, lines_rate, bytes_rate, finished), stage, r),
    ensures
        r matches Some(m) && m.stage == stage && m.total_lines == lines && m.total_bytes == bytes
            && m.lines_per_second@ == lines_rate && m.bytes_per_second@ == bytes_rate && m.status
            == (if finished {
            StageStatus::Completed
        } else {
            StageStatus::Running
        }),
{
    lemma_stats_text_lines(lines, bytes, lines_rate, bytes_rate, finished);
}

/// Law: collecting the statistics of a run gives, for stage `inx + 1` whose file an
/// observer wrote, what that observer counted: the stage's number, its line and byte
/// counts, its lines per second as the file's third line and its bytes per second as the
/// fourth, its state (completed when finished, else running), and the stage's command.
pub proof fn law_collected_stats_read_back(
    inx: int,
    commands: Seq<String>,
    contents: Seq<Option<String>>,
    m: StageMetrics,
    lines: nat,
    bytes: nat,
    lines_rate: Seq<char>,
    bytes_rate: Seq<char>,
    finished: bool,
)
    requires
        0 <= inx < contents.len(),
        inx + 1 <= u32::MAX,
        contents[inx] matches Some(t) && t@ == stats_text(
            lines,
            bytes,
            lines_rate,
            bytes_rate,
            finished,
        ),
        lines <= usize::MAX,
        bytes <= usize::MAX,
        one_line(lines_rate),
        one_line(bytes_rate),
        stage_metrics_of(inx, commands, contents, m),
    ensures
        m.stage == inx + 1,
        m.total_lines == lines,
        m.total_bytes == bytes,
        m.lines_per_second@ == lines_rate,
        m.bytes_per_second@ == bytes_rate,
        m.status == (if finished {
            StageStatus::Completed
        } else {
            StageStatus::Running
        }),
        m.command@ == (if inx < commands.len() {
            commands[inx]@
        } else {
            Seq::<char>::empty()
        }),
{
    lemma_stats_text_lines(lines, bytes, lines_rate, bytes_rate, finished);
}

/// Law: the metrics collected for stage `inx + 1` from a statistics file of at least
/// four lines are what reading that file alone gives (`p`), field for field, but for
/// the command, which is the stage's own.
pub proof fn law_collected_stage_is_parsed(
    inx: int,
    commands: Seq<String>,
    contents: Seq<Option<String>>,
    m: StageMetrics,
    p: StageMetrics,
)
    requires
        0 <= inx < contents.len(),
        inx + 1 <= u32::MAX,
        contents[inx] matches Some(t) && stats_outcome(t@, (inx + 1) as nat, Some(p)),
        stage_metrics_of(inx, commands, contents, m),
    ensures
        m.stage == p.stage,
        m.total_lines == p.total_lines,
        m.total_bytes == p.total_bytes,
        m.lines_per_second@ == p.lines_per_second@,
        m.bytes_per_second@ == p.bytes_per_second@,
        m.status == p.status,
        m.command@ == (if inx < commands.len() {
            commands[inx]@
        } else {
            Seq::<char>::empty()
        }),
{
}

/// Law: a stage whose statistics file could not be read, or says less than four lines,
/// is collected as pending: nothing counted, no rates, with its number and command.
pub proof fn law_unreported_stage_pending(
    inx: int,
    commands: Seq<String>,
    contents: Seq<Option<String>>,
    m: StageMetrics,
)
    requires
        0 <= inx,
        inx + 1 <= u32::MAX,
        inx >= contents.len() || contents[inx] is None || (contents[inx] matches Some(t)
            && lines_of(t@).len() < 4),
        stage_metrics_of(inx, commands, contents, m),
    ensures
        m.stage == inx + 1,
        m.total_lines == 0,
        m.total_bytes == 0,
        m.lines_per_second@.len() == 0,
        m.bytes_per_second@.len() == 0,
        m.status == StageStatus::Pending,
        m.command@ == (if inx < commands.len() {
            commands[inx]@
        } else {
            Seq::<char>::empty()
        }),
{
}

/// Law: the captured-output file that an observer writes reads back as the lines it
/// kept, whenever no kept line holds a '\n', none but the last ends with '\r', and the
/// last (if any) is not empty.
pub proof fn law_output_file_reads_back(lines: Seq<Seq<char>>)
    requires
        forall|i: int| 0 <= i < lines.len() ==> !(#[trigger] lines[i]).contains('\n'),
        forall|i: int|
            0 <= i < lines.len() - 1 ==> (#[trigger] lines[i]).len() == 0 || lines[i].last()
                != '\r',
        lines.len() == 0 || lines.last().len() > 0,
    ensures
        lines_of(join_with(lines, "\n"@)) == lines,
{
    reveal_strlit("\n");
    assert("\n"@ =~= seq!['\n']);
    lemma_lines_of_joined(lines);
}

} // verus!
