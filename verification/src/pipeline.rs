use vstd::prelude::*;

use crate::text::{
    append_chars, chars_of, decimal, is_digit, is_trimmed, is_white_space, join_chars, join_with,
    lemma_concat_free, lemma_decimal_digits, lemma_join_ends, lemma_join_extend_last,
    lemma_split_join, lemma_split_pieces_free, lemma_trim_free, lemma_trim_is_trimmed,
    lemma_trim_trimmed, push_decimal, split_chars, split_on, string_of, strings_of, trim,
    trim_chars, views, parse_u32, parse_unsigned_spec, skip_chars, starts_with_chars,
    chars_eq, chars_of_strings, lemma_decimal_value, all_digits,
};

verus! {

/// Lines between two writes of a stage's statistics file.
pub const STATS_UPDATE_INTERVAL: usize = 100;

/// Lines of output a stage keeps for the viewer.
pub const MAX_OUTPUT_LINES: usize = 5000;

/// A shell pipeline: its text and the commands between its '|'.
#[derive(Debug, Clone)]
pub struct Pipeline {
    pub original: String,
    pub stages: Vec<String>,
}

/// Why a pipeline text is refused.
#[derive(Debug, Clone, Copy, PartialEq, Eq, Structural)]
pub enum PipelineError {
    /// Nothing but white space.
    Empty,
    /// The stage with this 1-based number, not the last one, has no command (two '|' with
    /// nothing between them).
    DoublePipe(usize),
    /// The last stage, with this 1-based number, has no command (a '|' at the end).
    TrailingPipe(usize),
}

/// The stage commands of a pipeline text: the trimmed pieces between the '|' of the
/// trimmed text.
pub open spec fn stage_texts(text: Seq<char>) -> Seq<Seq<char>> {
    split_on(trim(text), '|').map_values(|p: Seq<char>| trim(p))
}

/// No command is empty.
pub open spec fn all_nonempty(stages: Seq<Seq<char>>) -> bool {
    forall|i: int| 0 <= i < stages.len() ==> (#[trigger] stages[i]).len() > 0
}

/// `n` is the 1-based number of the first empty command of `stages`.
pub open spec fn first_empty_stage(stages: Seq<Seq<char>>, n: int) -> bool {
    &&& 1 <= n <= stages.len()
    &&& stages[n - 1].len() == 0
    &&& forall|i: int| 0 <= i < n - 1 ==> (#[trigger] stages[i]).len() > 0
}

/// The refusal for an empty command numbered `n` (1-based) out of `count`: a trailing pipe
/// when it is the last command, else a double pipe.
pub open spec fn empty_stage_error(n: nat, count: nat) -> PipelineError {
    if n == count {
        PipelineError::TrailingPipe(n as usize)
    } else {
        PipelineError::DoublePipe(n as usize)
    }
}

/// What reading a pipeline text gives: refused when blank, refused at the first empty
/// command (as a trailing pipe when it is the last one, else as a double pipe), else
/// accepted.
pub open spec fn parse_outcome(content: Seq<char>, r: Result<Pipeline, PipelineError>) -> bool {
    if trim(content).len() == 0 {
        r == Err::<Pipeline, PipelineError>(PipelineError::Empty)
    } else if !all_nonempty(stage_texts(content)) {
        r matches Err(e) && exists|n: int|
            first_empty_stage(stage_texts(content), n) && e == #[trigger] empty_stage_error(
                n as nat,
                stage_texts(content).len(),
            )
    } else {
        r matches Ok(p) && p.original@ == trim(content) && views(p.stages@) == stage_texts(content)
    }
}

/// The text that runs a stage observer: `exe --stage=<stage> --run-id=<run_id> --quiet`.
pub open spec fn observer_text(exe: Seq<char>, stage: nat, run_id: nat) -> Seq<char> {
    exe + " --stage="@ + decimal(stage) + " --run-id="@ + decimal(run_id) + " --quiet"@
}

/// The commands of the injected pipeline: the stages, with an observer numbered `i`
/// between stage `i` and stage `i + 1` (1-based); none after the last stage.
pub open spec fn injected_parts(stages: Seq<Seq<char>>, exe: Seq<char>, run_id: nat) -> Seq<
    Seq<char>,
> {
    if stages.len() == 0 {
        Seq::<Seq<char>>::empty()
    } else {
        Seq::new(
            (2 * stages.len() - 1) as nat,
            |j: int|
                if j % 2 == 0 {
                    stages[j / 2]
                } else {
                    observer_text(exe, ((j + 1) / 2) as nat, run_id)
                },
        )
    }
}

/// The text of a refusal, for a file at `path`.
pub open spec fn error_text(e: PipelineError, path: Seq<char>) -> Seq<char> {
    match e {
        PipelineError::Empty => "'"@ + path + "' is empty"@,
        PipelineError::DoublePipe(n) => "'"@ + path + "' stage "@ + decimal(n as nat)
            + " is empty (double pipe?)"@,
        PipelineError::TrailingPipe(n) => "'"@ + path + "' stage "@ + decimal(n as nat)
            + " is empty (trailing pipe?)"@,
    }
}

impl PipelineError {
    /// The refusal as the viewer shows it, for a file at `path`.
    pub fn message(&self, path: &str) -> (r: String)
        ensures
            r@ == error_text(*self, path@),
    {
        let mut v = chars_of("'");
        append_chars(&mut v, &chars_of(path));
        match self {
            PipelineError::Empty => {
                append_chars(&mut v, &chars_of("' is empty"));
            },
            PipelineError::DoublePipe(n) => {
                append_chars(&mut v, &chars_of("' stage "));
                push_decimal(&mut v, *n as u64);
                append_chars(&mut v, &chars_of(" is empty (double pipe?)"));
            },
            PipelineError::TrailingPipe(n) => {
                append_chars(&mut v, &chars_of("' stage "));
                push_decimal(&mut v, *n as u64);
                append_chars(&mut v, &chars_of(" is empty (trailing pipe?)"));
            },
        }
        string_of(&v)
    }
}

impl Pipeline {
    /// A pipeline that reading a text can give: the trimmed text, non-blank, and its
    /// non-empty stage commands.
    pub open spec fn wf(&self) -> bool {
        &&& self.original@.len() > 0
        &&& is_trimmed(self.original@)
        &&& views(self.stages@) == stage_texts(self.original@)
        &&& all_nonempty(views(self.stages@))
    }

    /// A pipeline has at least one stage.
    pub proof fn lemma_has_stages(&self)
        requires
            self.wf(),
        ensures
            self.stages@.len() >= 1,
    {
        crate::text::lemma_split_nonempty(trim(self.original@), '|');
        assert(views(self.stages@).len() == self.stages@.len());
    }

    /// Reads a pipeline text: trims it, splits it at '|' and trims each command.
    pub fn parse(content: &str) -> (r: Result<Pipeline, PipelineError>)
        ensures
            parse_outcome(content@, r),
            r matches Ok(p) ==> p.wf(),
    {
        let v = chars_of(content);
        let t = trim_chars(&v);
        if t.len() == 0 {
            return Err(PipelineError::Empty);
        }
        let pieces = split_chars(&t, '|');
        let ghost sp = split_on(t@, '|');
        let ghost st = stage_texts(content@);
        let mut trimmed: Vec<Vec<char>> = Vec::new();
        for i in 0..pieces.len()
            invariant
                pieces@.map_values(|p: Vec<char>| p@) == sp,
                t@ == trim(content@),
                t@.len() > 0,
                st == stage_texts(content@),
                sp == split_on(t@, '|'),
                st == sp.map_values(|p: Seq<char>| trim(p)),
                trimmed@.map_values(|p: Vec<char>| p@) == st.take(i as int),
                forall|k: int| 0 <= k < i ==> (#[trigger] st[k]).len() > 0,
        {
            let p = trim_chars(&pieces[i]);
            assert(p@ == st[i as int]);
            if p.len() == 0 {
                assert(first_empty_stage(st, i + 1));
                assert(st.len() == pieces@.len());
                let e = if i + 1 == pieces.len() {
                    PipelineError::TrailingPipe(i + 1)
                } else {
                    PipelineError::DoublePipe(i + 1)
                };
                assert(empty_stage_error((i + 1) as nat, st.len()) == e);
                return Err(e);
            }
            let ghost old_t = trimmed@;
            trimmed.push(p);
            assert(trimmed@.map_values(|p: Vec<char>| p@) =~= old_t.map_values(|p: Vec<char>| p@).push(
                st[i as int],
            ));
            assert(st.take(i + 1) =~= st.take(i as int).push(st[i as int]));
        }
        assert(st.take(pieces.len() as int) =~= st);
        let stages = strings_of(&trimmed);
        let original = string_of(&t);
        proof {
            lemma_trim_is_trimmed(content@);
            lemma_trim_trimmed(trim(content@));
        }
        Ok(Pipeline { original, stages })
    }

    /// The number of stages.
    pub fn num_stages(&self) -> (n: usize)
        ensures
            n == self.stages@.len(),
    {
        self.stages.len()
    }

    /// The pipeline with an observer of this program (`executable`) after every stage
    /// but the last, each tagged with its stage number and `run_id`, joined by " | ".
    pub fn build_injected_command(&self, run_id: u32, executable: &str) -> (r: String)
        requires
            self.stages@.len() <= u32::MAX,
        ensures
            r@ == join_with(injected_parts(views(self.stages@), executable@, run_id as nat), " | "@),
    {
        let exe = chars_of(executable);
        let n = self.stages.len();
        let ghost full = injected_parts(views(self.stages@), exe@, run_id as nat);
        let mut parts: Vec<Vec<char>> = Vec::new();
        let mut stage_counter: u32 = 1;
        for inx in 0..n
            invariant
                n == self.stages@.len(),
                n <= u32::MAX,
                full == injected_parts(views(self.stages@), exe@, run_id as nat),
                stage_counter == (if inx == n && n > 0 {
                    inx as int
                } else {
                    inx + 1
                }),
                parts@.len() == (if inx == n && n > 0 {
                    2 * inx - 1
                } else {
                    2 * inx
                }),
                forall|j: int| 0 <= j < parts@.len() ==> (#[trigger] parts@[j])@ == full[j],
        {
            let s = chars_of(self.stages[inx].as_str());
            assert(full[2 * inx as int] == s@);
            parts.push(s);
            if inx + 1 < n {
                let o = observer(&exe, stage_counter, run_id);
                assert(full[2 * inx + 1] == o@);
                parts.push(o);
                stage_counter = stage_counter + 1;
            }
        }
        assert(parts@.map_values(|p: Vec<char>| p@) =~= full);
        let sep = chars_of(" | ");
        let joined = join_chars(&parts, &sep);
        string_of(&joined)
    }
}

fn observer(exe: &Vec<char>, stage: u32, run_id: u32) -> (r: Vec<char>)
    ensures
        r@ == observer_text(exe@, stage as nat, run_id as nat),
{
    let mut v: Vec<char> = Vec::new();
    append_chars(&mut v, exe);
    append_chars(&mut v, &chars_of(" --stage="));
    push_decimal(&mut v, stage as u64);
    append_chars(&mut v, &chars_of(" --run-id="));
    push_decimal(&mut v, run_id as u64);
    append_chars(&mut v, &chars_of(" --quiet"));
    assert(v@ =~= observer_text(exe@, stage as nat, run_id as nat));
    v
}


/// A command as it stands between two '|': non-empty, trimmed, without '|'.
pub open spec fn clean_command(c: Seq<char>) -> bool {
    c.len() > 0 && is_trimmed(c) && !c.contains('|')
}

/// Each part with a space before it unless it is first, and after it unless it is last.
spec fn padded(parts: Seq<Seq<char>>) -> Seq<Seq<char>> {
    Seq::new(
        parts.len(),
        |i: int|
            (if i > 0 {
                seq![' ']
            } else {
                Seq::<char>::empty()
            }) + parts[i] + (if i < parts.len() - 1 {
                seq![' ']
            } else {
                Seq::<char>::empty()
            }),
    )
}

proof fn lemma_join_spaced(parts: Seq<Seq<char>>)
    requires
        parts.len() >= 1,
    ensures
        join_with(parts, seq![' ', '|', ' ']) == join_with(padded(parts), seq!['|']),
    decreases parts.len(),
{
    let pp = padded(parts);
    if parts.len() == 1 {
        assert(pp[0] =~= parts[0]);
    } else {
        let init = parts.drop_last();
        lemma_join_spaced(init);
        let pi = padded(init);
        assert(pp.drop_last() =~= pi.update(pi.len() - 1, pi.last() + seq![' ']));
        lemma_join_extend_last(pi, seq!['|'], seq![' ']);
        assert(pp.last() =~= seq![' '] + parts.last());
        assert(join_with(pp, seq!['|']) =~= join_with(init, seq![' ', '|', ' ']) + seq![
            ' ',
            '|',
            ' ',
        ] + parts.last());
    }
}

proof fn lemma_trim_pad(pre: Seq<char>, p: Seq<char>, post: Seq<char>)
    requires
        clean_command(p),
        pre == seq![' '] || pre == Seq::<char>::empty(),
        post == seq![' '] || post == Seq::<char>::empty(),
    ensures
        trim(pre + p + post) == p,
        !(pre + p + post).contains('|'),
{
    let s = pre + p + post;
    let i = pre.len() as int;
    let j = (pre.len() + p.len()) as int;
    assert(s[i] == p[0]);
    assert(s[j - 1] == p.last());
    crate::text::lemma_trim_of_range(s, i, j);
    assert(s.subrange(i, j) =~= p);
    lemma_concat_free(pre, p, '|');
    lemma_concat_free(pre + p, post, '|');
}

proof fn lemma_observer_clean(exe: Seq<char>, stage: nat, run_id: nat)
    requires
        clean_command(exe),
    ensures
        clean_command(observer_text(exe, stage, run_id)),
{
    reveal_strlit(" --stage=");
    reveal_strlit(" --run-id=");
    reveal_strlit(" --quiet");
    let o = observer_text(exe, stage, run_id);
    lemma_decimal_digits(stage);
    lemma_decimal_digits(run_id);
    assert(!decimal(stage).contains('|')) by {
        if decimal(stage).contains('|') {
            let k = choose|k: int| 0 <= k < decimal(stage).len() && decimal(stage)[k] == '|';
            assert(is_digit(decimal(stage)[k]));
        }
    }
    assert(!decimal(run_id).contains('|')) by {
        if decimal(run_id).contains('|') {
            let k = choose|k: int| 0 <= k < decimal(run_id).len() && decimal(run_id)[k] == '|';
            assert(is_digit(decimal(run_id)[k]));
        }
    }
    assert(!" --stage="@.contains('|'));
    assert(!" --run-id="@.contains('|'));
    assert(!" --quiet"@.contains('|'));
    lemma_concat_free(exe, " --stage="@, '|');
    lemma_concat_free(exe + " --stage="@, decimal(stage), '|');
    lemma_concat_free(exe + " --stage="@ + decimal(stage), " --run-id="@, '|');
    lemma_concat_free(exe + " --stage="@ + decimal(stage) + " --run-id="@, decimal(run_id), '|');
    lemma_concat_free(
        exe + " --stage="@ + decimal(stage) + " --run-id="@ + decimal(run_id),
        " --quiet"@,
        '|',
    );
    assert(o[0] == exe[0]);
    assert(o.last() == 't');
}

/// Joining clean commands with " | " gives a text that reads back as those commands.
pub proof fn lemma_clean_join_reparses(parts: Seq<Seq<char>>)
    requires
        parts.len() >= 1,
        forall|i: int| 0 <= i < parts.len() ==> clean_command(#[trigger] parts[i]),
    ensures
        ({
            let cmd = join_with(parts, " | "@);
            &&& trim(cmd) == cmd
            &&& cmd.len() > 0
            &&& stage_texts(cmd) == parts
            &&& all_nonempty(stage_texts(cmd))
        }),
{
    reveal_strlit(" | ");
    let pd = padded(parts);
    assert(" | "@ =~= seq![' ', '|', ' ']);
    lemma_join_spaced(parts);
    let cmd = join_with(parts, " | "@);
    assert forall|i: int| 0 <= i < pd.len() implies !(#[trigger] pd[i]).contains('|') && trim(
        pd[i],
    ) == parts[i] by {
        let pre = if i > 0 {
            seq![' ']
        } else {
            Seq::<char>::empty()
        };
        let post = if i < parts.len() - 1 {
            seq![' ']
        } else {
            Seq::<char>::empty()
        };
        lemma_trim_pad(pre, parts[i], post);
        assert(pd[i] == pre + parts[i] + post);
    }
    lemma_split_join(pd, '|');
    assert(pd[0][0] == parts[0][0]) by {
        assert(pd[0] == parts[0] + pd[0].skip(parts[0].len() as int));
    }
    assert(pd.last().last() == parts.last().last()) by {
        let pre = if pd.len() > 1 {
            seq![' ']
        } else {
            Seq::<char>::empty()
        };
        assert(pd.last() =~= pre + parts.last());
    }
    lemma_join_ends(pd, seq!['|']);
    lemma_trim_trimmed(cmd);
    assert(stage_texts(cmd) =~= parts);
}

/// Parsing the injected command of clean stages gives back the stages with an observer
/// between each pair of neighbours, provided that the observer's program path is itself a
/// clean command (non-blank, trimmed, without '|').
pub proof fn lemma_injected_command_reparses(stages: Seq<Seq<char>>, exe: Seq<char>, run_id: nat)
    requires
        stages.len() >= 1,
        forall|i: int| 0 <= i < stages.len() ==> clean_command(#[trigger] stages[i]),
        clean_command(exe),
    ensures
        ({
            let cmd = join_with(injected_parts(stages, exe, run_id), " | "@);
            &&& trim(cmd) == cmd
            &&& cmd.len() > 0
            &&& stage_texts(cmd) == injected_parts(stages, exe, run_id)
            &&& all_nonempty(stage_texts(cmd))
        }),
{
    let parts = injected_parts(stages, exe, run_id);
    assert forall|i: int| 0 <= i < parts.len() implies clean_command(#[trigger] parts[i]) by {
        if i % 2 == 1 {
            lemma_observer_clean(exe, ((i + 1) / 2) as nat, run_id);
        } else {
            assert(parts[i] == stages[i / 2]);
        }
    }
    lemma_clean_join_reparses(parts);
}

/// Law: every stage of a pipeline read from a text is a clean command: non-empty,
/// trimmed, without '|'.
pub proof fn law_parsed_stages_clean(p: Pipeline)
    requires
        p.wf(),
    ensures
        p.stages@.len() >= 1,
        forall|i: int| 0 <= i < p.stages@.len() ==> clean_command(#[trigger] p.stages@[i]@),
{
    let st = views(p.stages@);
    let sp = split_on(trim(p.original@), '|');
    lemma_split_pieces_free(trim(p.original@), '|');
    assert(st.len() == p.stages@.len());
    assert forall|i: int| 0 <= i < p.stages@.len() implies clean_command(#[trigger] p.stages@[i]@) by {
        assert(st[i] == p.stages@[i]@);
        assert(st[i] == trim(sp[i]));
        lemma_trim_free(sp[i], '|');
        lemma_trim_is_trimmed(sp[i]);
    }
    p.lemma_has_stages();
}

/// Law: the stages of a pipeline are a normal form: joined with " | " they read back as
/// the same stages.
pub proof fn law_stages_rejoin(p: Pipeline)
    requires
        p.wf(),
    ensures
        ({
            let cmd = join_with(views(p.stages@), " | "@);
            &&& trim(cmd).len() > 0
            &&& all_nonempty(stage_texts(cmd))
            &&& stage_texts(cmd) == views(p.stages@)
        }),
{
    law_parsed_stages_clean(p);
    let st = views(p.stages@);
    assert forall|i: int| 0 <= i < st.len() implies clean_command(#[trigger] st[i]) by {
        assert(st[i] == p.stages@[i]@);
    }
    lemma_clean_join_reparses(st);
}

/// Law: the command that runs a pipeline with its observers reads back as that pipeline's
/// stages, with observer `i` between stage `i` and stage `i + 1`.
pub proof fn law_injected_command_reparses(p: Pipeline, exe: Seq<char>, run_id: nat)
    requires
        p.wf(),
        clean_command(exe),
    ensures
        ({
            let cmd = join_with(injected_parts(views(p.stages@), exe, run_id), " | "@);
            &&& trim(cmd).len() > 0
            &&& all_nonempty(stage_texts(cmd))
            &&& stage_texts(cmd) == injected_parts(views(p.stages@), exe, run_id)
        }),
{
    law_parsed_stages_clean(p);
    let st = views(p.stages@);
    assert forall|i: int| 0 <= i < st.len() implies clean_command(#[trigger] st[i]) by {
        assert(st[i] == p.stages@[i]@);
    }
    lemma_injected_command_reparses(st, exe, run_id);
}

/// `std::time::Instant`, a point of the monotonic clock.
#[verifier::external_type_specification]
#[verifier::external_body]
pub struct ExInstant(std::time::Instant);

/// Calls `std::time::Instant::now`. Nothing is claimed of the result: it is the clock's
/// reading.
#[verifier::external_body]
fn instant_now() -> std::time::Instant {
    std::time::Instant::now()
}

/// What an observer has counted of the data that passed through it.
pub struct PipingStatistics {
    pub total_bytes_amount: usize,
    pub total_lines_amount: usize,
    pub start_time: std::time::Instant,
    pub finished: bool,
    /// The line count at the last write of the statistics file.
    pub last_update_line: usize,
}

impl PipingStatistics {
    /// The last write happened at a line count not beyond the current one.
    pub open spec fn wf(&self) -> bool {
        self.last_update_line <= self.total_lines_amount
    }

    /// Nothing counted yet; the clock starts now.
    pub fn new() -> (r: Self)
        ensures
            r.total_bytes_amount == 0,
            r.total_lines_amount == 0,
            !r.finished,
            r.last_update_line == 0,
            r.wf(),
    {
        PipingStatistics {
            total_bytes_amount: 0,
            total_lines_amount: 0,
            start_time: instant_now(),
            finished: false,
            last_update_line: 0,
        }
    }

    /// Counts one line of `line_bytes` bytes, plus its line ending.
    pub fn record_line(&mut self, line_bytes: usize)
        requires
            old(self).total_lines_amount < usize::MAX,
            old(self).total_bytes_amount + line_bytes + 1 <= usize::MAX,
        ensures
            final(self).total_lines_amount == old(self).total_lines_amount + 1,
            final(self).total_bytes_amount == old(self).total_bytes_amount + line_bytes + 1,
            final(self).finished == old(self).finished,
            final(self).start_time == old(self).start_time,
            final(self).last_update_line == old(self).last_update_line,
            old(self).wf() ==> final(self).wf(),
    {
        self.total_lines_amount = self.total_lines_amount + 1;
        self.total_bytes_amount = self.total_bytes_amount + line_bytes + 1;
    }

    /// Whether the statistics file is due for a write: at least `STATS_UPDATE_INTERVAL`
    /// lines since the last one. When it is, the current count becomes the last write's.
    pub fn try_write_update(&mut self) -> (due: bool)
        requires
            old(self).wf(),
        ensures
            due == (old(self).total_lines_amount - old(self).last_update_line
                >= STATS_UPDATE_INTERVAL),
            final(self).last_update_line == (if due {
                old(self).total_lines_amount
            } else {
                old(self).last_update_line
            }),
            final(self).total_lines_amount == old(self).total_lines_amount,
            final(self).total_bytes_amount == old(self).total_bytes_amount,
            final(self).finished == old(self).finished,
            final(self).start_time == old(self).start_time,
            final(self).wf(),
    {
        if self.total_lines_amount - self.last_update_line >= STATS_UPDATE_INTERVAL {
            self.last_update_line = self.total_lines_amount;
            true
        } else {
            false
        }
    }
}

/// What an observer does for one line, besides passing it on.
#[derive(Debug, Clone, Copy, PartialEq, Eq, Structural)]
pub struct LineEffects {
    /// Rewrite the statistics file.
    pub write_stats: bool,
    /// Rewrite the captured-output file.
    pub write_output: bool,
}

/// The state of an observer between two lines: its counts and the lines it keeps.
pub struct StageCapture {
    pub stats: PipingStatistics,
    pub output_buffer: Vec<String>,
}

impl StageCapture {
    /// At most `MAX_OUTPUT_LINES` kept, consistent counts, and the last statistics write
    /// where writing after every line from a fresh count puts it (see
    /// [`last_write_after`]).
    pub open spec fn wf(&self) -> bool {
        &&& self.stats.wf()
        &&& self.output_buffer@.len() <= MAX_OUTPUT_LINES
        &&& self.output_buffer@.len() <= self.stats.total_lines_amount
        &&& self.stats.last_update_line == last_write_after(self.stats.total_lines_amount as nat)
    }

    /// Nothing seen yet.
    pub fn new() -> (r: Self)
        ensures
            r.wf(),
            r.stats.last_update_line == 0,
            r.output_buffer@.len() == 0,
            r.stats.total_lines_amount == 0,
            r.stats.total_bytes_amount == 0,
            !r.stats.finished,
    {
        StageCapture { stats: PipingStatistics::new(), output_buffer: Vec::new() }
    }

    /// Takes one line: counts it, keeps it while fewer than `MAX_OUTPUT_LINES` are kept,
    /// and says which files are due: the statistics file every `STATS_UPDATE_INTERVAL`
    /// lines, the output file whenever the number of kept lines is a non-zero multiple of
    /// `STATS_UPDATE_INTERVAL`.
    pub fn on_line(&mut self, line: String) -> (eff: LineEffects)
        requires
            old(self).wf(),
            old(self).stats.total_lines_amount < usize::MAX,
            old(self).stats.total_bytes_amount + crate::text::utf8_len(line@) + 1 <= usize::MAX,
        ensures
            final(self).wf(),
            final(self).stats.total_lines_amount == old(self).stats.total_lines_amount + 1,
            final(self).stats.total_bytes_amount == old(self).stats.total_bytes_amount
                + crate::text::utf8_len(line@) + 1,
            final(self).stats.finished == old(self).stats.finished,
            final(self).stats.start_time == old(self).stats.start_time,
            final(self).output_buffer@ == (if old(self).output_buffer@.len() < MAX_OUTPUT_LINES {
                old(self).output_buffer@.push(line)
            } else {
                old(self).output_buffer@
            }),
            eff.write_stats == (old(self).stats.total_lines_amount + 1 - old(self).stats.last_update_line
                >= STATS_UPDATE_INTERVAL),
            final(self).stats.last_update_line == (if eff.write_stats {
                final(self).stats.total_lines_amount
            } else {
                old(self).stats.last_update_line
            }),
            eff.write_stats == (final(self).stats.total_lines_amount % STATS_UPDATE_INTERVAL == 0),
            eff.write_output == (final(self).output_buffer@.len() % (STATS_UPDATE_INTERVAL as nat) == 0
                && final(self).output_buffer@.len() > 0),
    {
        proof {
            law_stats_cadence_from_start((old(self).stats.total_lines_amount + 1) as nat);
        }
        let nbytes = line.as_str().len();
        self.stats.record_line(nbytes);
        if self.output_buffer.len() < MAX_OUTPUT_LINES {
            self.output_buffer.push(line);
        }
        let write_stats = self.stats.try_write_update();
        let n = self.output_buffer.len();
        LineEffects { write_stats, write_output: n % STATS_UPDATE_INTERVAL == 0 && n > 0 }
    }

    /// The input has ended: the counts are final.
    pub fn finish(&mut self)
        requires
            old(self).wf(),
        ensures
            final(self).wf(),
            final(self).stats.finished,
            final(self).stats.total_lines_amount == old(self).stats.total_lines_amount,
            final(self).stats.total_bytes_amount == old(self).stats.total_bytes_amount,
            final(self).stats.last_update_line == old(self).stats.last_update_line,
            final(self).stats.start_time == old(self).stats.start_time,
            final(self).output_buffer@ == old(self).output_buffer@,
    {
        self.stats.finished = true;
    }
}


/// `s` begins with `p`.
pub open spec fn has_prefix(s: Seq<char>, p: Seq<char>) -> bool {
    p.len() <= s.len() && s.take(p.len() as int) == p
}

/// How the program was asked to run.
#[derive(Debug, Clone, PartialEq, Eq)]
pub enum CliMode {
    /// As an observer inside a pipeline; `quiet` keeps it from echoing lines to stderr.
    Injected { quiet: bool },
    /// As the interactive viewer, with the pipeline file to load first, if any.
    Interactive { file: Option<String> },
}

/// The first argument after the program name that is not an option, if any.
pub open spec fn first_operand(args: Seq<Seq<char>>, found: Option<Seq<char>>) -> bool {
    match found {
        Some(f) => exists|i: int|
            1 <= i < args.len() && args[i] == f && !has_prefix(args[i], "--"@) && forall|j: int|
                1 <= j < i ==> has_prefix(#[trigger] args[j], "--"@),
        None => forall|j: int| 1 <= j < args.len() ==> has_prefix(#[trigger] args[j], "--"@),
    }
}

/// The mode that the command line `args` (program name first) asks for: observer mode
/// when any argument starts with "--stage=", quiet when one of them is "--quiet";
/// otherwise the viewer, with the first non-option argument as the file to load.
pub fn parse_cli(args: &Vec<String>) -> (m: CliMode)
    ensures
        ({
            let a = views(args@);
            if exists|i: int| 0 <= i < a.len() && has_prefix(#[trigger] a[i], "--stage="@) {
                m == CliMode::Injected {
                    quiet: exists|i: int| 0 <= i < a.len() && #[trigger] a[i] == "--quiet"@,
                }
            } else {
                m matches CliMode::Interactive { file } && first_operand(
                    a,
                    match file {
                        Some(f) => Some(f@),
                        None => None,
                    },
                )
            }
        }),
{
    let a = chars_of_strings(args);
    let ghost av = views(args@);
    assert(a@.map_values(|p: Vec<char>| p@) == av);
    let stage_flag = chars_of("--stage=");
    let quiet_flag = chars_of("--quiet");
    let opt = chars_of("--");
    let mut has_stage = false;
    for i in 0..a.len()
        invariant
            a@.map_values(|p: Vec<char>| p@) == av,
            stage_flag@ == "--stage="@,
            has_stage == exists|k: int| 0 <= k < i && has_prefix(#[trigger] av[k], "--stage="@),
    {
        let b = starts_with_chars(&a[i], &stage_flag);
        assert(a@[i as int]@ == av[i as int]);
        if b {
            has_stage = true;
        }
    }
    if has_stage {
        let mut quiet = false;
        for i in 0..a.len()
            invariant
                a@.map_values(|p: Vec<char>| p@) == av,
                quiet_flag@ == "--quiet"@,
                quiet == exists|k: int| 0 <= k < i && #[trigger] av[k] == "--quiet"@,
        {
            let b = chars_eq(&a[i], &quiet_flag);
            assert(a@[i as int]@ == av[i as int]);
            if b {
                quiet = true;
            }
        }
        return CliMode::Injected { quiet };
    }
    let mut i: usize = 1;
    while i < a.len()
        invariant
            a@.map_values(|p: Vec<char>| p@) == av,
            av == views(args@),
            !exists|k: int| 0 <= k < av.len() && has_prefix(#[trigger] av[k], "--stage="@),
            opt@ == "--"@,
            1 <= i,
            forall|j: int| 1 <= j < i && j < av.len() ==> has_prefix(#[trigger] av[j], "--"@),
        decreases a.len() - i,
    {
        assert(a@[i as int]@ == av[i as int]);
        if !starts_with_chars(&a[i], &opt) {
            let f = args[i].clone();
            assert(f@ == av[i as int]);
            assert(forall|j: int| 1 <= j < i ==> has_prefix(#[trigger] av[j], "--"@));
            assert(first_operand(av, Some(f@)));
            return CliMode::Interactive { file: Some(f) };
        }
        i = i + 1;
    }
    CliMode::Interactive { file: None }
}

/// The value of the first argument of the form `<prefix><u32>`, or `default` when none is.
pub open spec fn flag_value(args: Seq<Seq<char>>, prefix: Seq<char>, default: nat) -> nat
    decreases args.len(),
{
    if args.len() == 0 {
        default
    } else if has_prefix(args[0], prefix) && parse_unsigned_spec(
        args[0].skip(prefix.len() as int),
        u32::MAX as nat,
    ) is Some {
        parse_unsigned_spec(args[0].skip(prefix.len() as int), u32::MAX as nat)->0
    } else {
        flag_value(args.drop_first(), prefix, default)
    }
}

fn find_flag_value(args: &Vec<String>, prefix: &str, default: u32) -> (r: u32)
    ensures
        r as nat == flag_value(views(args@), prefix@, default as nat),
{
    let a = chars_of_strings(args);
    let ghost av = views(args@);
    let p = chars_of(prefix);
    let mut i: usize = 0;
    assert(av.skip(0) =~= av);
    while i < a.len()
        invariant
            a@.map_values(|p: Vec<char>| p@) == av,
            av == views(args@),
            p@ == prefix@,
            i <= a.len(),
            flag_value(av, prefix@, default as nat) == flag_value(av.skip(i as int), prefix@, default as nat),
        decreases a.len() - i,
    {
        assert(av.skip(i as int)[0] == av[i as int]);
        assert(av.skip(i as int).drop_first() =~= av.skip(i + 1));
        assert(a@[i as int]@ == av[i as int]);
        if starts_with_chars(&a[i], &p) {
            let rest = skip_chars(&a[i], p.len());
            match parse_u32(&rest) {
                Some(v) => {
                    return v;
                },
                None => {},
            }
        }
        i = i + 1;
    }
    default
}

/// The stage number an observer was given (`--stage=<n>`), 1 when none.
pub fn parse_stage_arg(args: &Vec<String>) -> (r: u32)
    ensures
        r as nat == flag_value(views(args@), "--stage="@, 1),
{
    find_flag_value(args, "--stage=", 1)
}

/// The run an observer belongs to (`--run-id=<n>`), 0 when none.
pub fn parse_run_id_arg(args: &Vec<String>) -> (r: u32)
    ensures
        r as nat == flag_value(views(args@), "--run-id="@, 0),
{
    find_flag_value(args, "--run-id=", 0)
}

/// The name of the statistics file of a stage: `pipevision_<run_id>_<stage>.txt`.
pub open spec fn stats_file_text(run_id: nat, stage: nat) -> Seq<char> {
    "pipevision_"@ + decimal(run_id) + "_"@ + decimal(stage) + ".txt"@
}

/// The name of the captured-output file of a stage: `pipevision_<run_id>_<stage>_output.txt`.
pub open spec fn output_file_text(run_id: nat, stage: nat) -> Seq<char> {
    "pipevision_"@ + decimal(run_id) + "_"@ + decimal(stage) + "_output.txt"@
}

/// The file name under the temporary directory where a stage writes its statistics.
pub fn stats_file_name(run_id: u32, stage: u32) -> (r: String)
    ensures
        r@ == stats_file_text(run_id as nat, stage as nat),
{
    let mut v = chars_of("pipevision_");
    push_decimal(&mut v, run_id as u64);
    append_chars(&mut v, &chars_of("_"));
    push_decimal(&mut v, stage as u64);
    append_chars(&mut v, &chars_of(".txt"));
    string_of(&v)
}

/// The file name under the temporary directory where a stage writes the lines it kept.
pub fn output_file_name(run_id: u32, stage: u32) -> (r: String)
    ensures
        r@ == output_file_text(run_id as nat, stage as nat),
{
    let mut v = chars_of("pipevision_");
    push_decimal(&mut v, run_id as u64);
    append_chars(&mut v, &chars_of("_"));
    push_decimal(&mut v, stage as u64);
    append_chars(&mut v, &chars_of("_output.txt"));
    string_of(&v)
}


/// The lines an observer keeps of the lines it has seen: the first `MAX_OUTPUT_LINES`.
pub open spec fn first_kept(lines: Seq<String>) -> Seq<String> {
    if lines.len() <= MAX_OUTPUT_LINES {
        lines
    } else {
        lines.take(MAX_OUTPUT_LINES as int)
    }
}

/// Law: keeping lines one at a time as [`StageCapture::on_line`] does (push while fewer
/// than `MAX_OUTPUT_LINES` are kept) keeps the first `MAX_OUTPUT_LINES` lines seen.
pub proof fn law_capture_keeps_first_lines(lines: Seq<String>, line: String)
    ensures
        (if first_kept(lines).len() < MAX_OUTPUT_LINES {
            first_kept(lines).push(line)
        } else {
            first_kept(lines)
        }) == first_kept(lines.push(line)),
{
    if lines.len() < MAX_OUTPUT_LINES {
    } else if lines.len() == MAX_OUTPUT_LINES {
        assert(lines.push(line).take(MAX_OUTPUT_LINES as int) =~= lines);
    } else {
        assert(lines.push(line).take(MAX_OUTPUT_LINES as int) =~= lines.take(
            MAX_OUTPUT_LINES as int,
        ));
    }
}

/// Law: when an observer offers its statistics for a write after every line (as
/// [`StageCapture::on_line`] does), the writes fall exactly on the line counts that are
/// multiples of `STATS_UPDATE_INTERVAL`: with `n` lines counted and the last write at the
/// largest such multiple up to `n`, line `n + 1` is written exactly when `n + 1` is a
/// multiple, and the last write is again the largest multiple up to `n + 1`.
pub proof fn law_stats_cadence(n: nat, last: nat)
    requires
        last == n - n % (STATS_UPDATE_INTERVAL as nat),
    ensures
        ((n + 1 - last >= STATS_UPDATE_INTERVAL) <==> ((n + 1) % (STATS_UPDATE_INTERVAL as nat)
            == 0)),
        (if n + 1 - last >= STATS_UPDATE_INTERVAL {
            (n + 1) as int
        } else {
            last as int
        }) == (n + 1) - (n + 1) % (STATS_UPDATE_INTERVAL as nat),
{
    let i = STATS_UPDATE_INTERVAL as nat;
    assert(n % i < i);
    if n % i == i - 1 {
        assert((n + 1) % i == 0);
    } else {
        assert((n + 1) % i == n % i + 1);
    }
}


/// The text of a stage's statistics file: the line and byte counts, the two rates as
/// given, and "completed" or "running", each on a line of its own.
pub open spec fn stats_text(
    lines: nat,
    bytes: nat,
    lines_rate: Seq<char>,
    bytes_rate: Seq<char>,
    finished: bool,
) -> Seq<char> {
    decimal(lines) + "\n"@ + decimal(bytes) + "\n"@ + lines_rate + "\n"@ + bytes_rate + "\n"@ + (
    if finished {
        "completed"@
    } else {
        "running"@
    }) + "\n"@
}

impl PipingStatistics {
    /// The statistics file's text for these counts, with the rates already written out
    /// as `lines_rate` and `bytes_rate`.
    pub fn stats_file_content(&self, lines_rate: &str, bytes_rate: &str) -> (r: String)
        ensures
            r@ == stats_text(
                self.total_lines_amount as nat,
                self.total_bytes_amount as nat,
                lines_rate@,
                bytes_rate@,
                self.finished,
            ),
    {
        let nl = chars_of("\n");
        let mut v: Vec<char> = Vec::new();
        push_decimal(&mut v, self.total_lines_amount as u64);
        append_chars(&mut v, &nl);
        push_decimal(&mut v, self.total_bytes_amount as u64);
        append_chars(&mut v, &nl);
        append_chars(&mut v, &chars_of(lines_rate));
        append_chars(&mut v, &nl);
        append_chars(&mut v, &chars_of(bytes_rate));
        append_chars(&mut v, &nl);
        if self.finished {
            append_chars(&mut v, &chars_of("completed"));
        } else {
            append_chars(&mut v, &chars_of("running"));
        }
        append_chars(&mut v, &nl);
        string_of(&v)
    }
}

impl StageCapture {
    /// The captured-output file's text: the kept lines joined by '\n'.
    pub fn output_file_content(&self) -> (r: String)
        ensures
            r@ == join_with(views(self.output_buffer@), "\n"@),
    {
        let lines = chars_of_strings(&self.output_buffer);
        let sep = chars_of("\n");
        let j = join_chars(&lines, &sep);
        string_of(&j)
    }
}


/// Digits followed by a non-digit separator split apart in one way only.
proof fn lemma_digits_then_sep(
    d1: Seq<char>,
    c1: char,
    t1: Seq<char>,
    d2: Seq<char>,
    c2: char,
    t2: Seq<char>,
)
    requires
        all_digits(d1),
        all_digits(d2),
        !is_digit(c1),
        !is_digit(c2),
        d1 + seq![c1] + t1 == d2 + seq![c2] + t2,
    ensures
        d1 == d2,
        c1 == c2,
        t1 == t2,
{
    let a = d1 + seq![c1] + t1;
    let b = d2 + seq![c2] + t2;
    if d1.len() < d2.len() {
        assert(a[d1.len() as int] == c1);
        assert(b[d1.len() as int] == d2[d1.len() as int]);
    } else if d2.len() < d1.len() {
        assert(b[d2.len() as int] == c2);
        assert(a[d2.len() as int] == d1[d2.len() as int]);
    } else {
        assert(a.take(d1.len() as int) =~= d1);
        assert(b.take(d2.len() as int) =~= d2);
        assert(a[d1.len() as int] == c1);
        assert(b[d2.len() as int] == c2);
        assert(a.skip((d1.len() + 1) as int) =~= t1);
        assert(b.skip((d2.len() + 1) as int) =~= t2);
    }
}

proof fn lemma_decimal_injective(a: nat, b: nat)
    requires
        decimal(a) == decimal(b),
    ensures
        a == b,
{
    lemma_decimal_value(a);
    lemma_decimal_value(b);
}

proof fn lemma_strip_prefix(p: Seq<char>, x: Seq<char>, y: Seq<char>)
    requires
        p + x == p + y,
    ensures
        x == y,
{
    assert((p + x).skip(p.len() as int) =~= x);
    assert((p + y).skip(p.len() as int) =~= y);
}

proof fn lemma_name_parts(run_id: nat, stage: nat)
    ensures
        stats_file_text(run_id, stage) == "pipevision_"@ + (decimal(run_id) + seq!['_'] + (decimal(
            stage,
        ) + seq!['.'] + seq!['t', 'x', 't'])),
        output_file_text(run_id, stage) == "pipevision_"@ + (decimal(run_id) + seq!['_'] + (
        decimal(stage) + seq!['_'] + seq!['o', 'u', 't', 'p', 'u', 't', '.', 't', 'x', 't'])),
        all_digits(decimal(run_id)),
        all_digits(decimal(stage)),
{
    reveal_strlit("_");
    reveal_strlit(".txt");
    reveal_strlit("_output.txt");
    lemma_decimal_value(run_id);
    lemma_decimal_value(stage);
    assert(".txt"@ =~= seq!['.'] + seq!['t', 'x', 't']);
    assert("_output.txt"@ =~= seq!['_'] + seq!['o', 'u', 't', 'p', 'u', 't', '.', 't', 'x', 't']);
    assert("_"@ =~= seq!['_']);
    assert(stats_file_text(run_id, stage) =~= "pipevision_"@ + (decimal(run_id) + seq!['_'] + (
    decimal(stage) + seq!['.'] + seq!['t', 'x', 't'])));
    assert(output_file_text(run_id, stage) =~= "pipevision_"@ + (decimal(run_id) + seq!['_'] + (
    decimal(stage) + seq!['_'] + seq!['o', 'u', 't', 'p', 'u', 't', '.', 't', 'x', 't'])));
}

/// Law: different (run, stage) pairs have different statistics file names.
pub proof fn law_stats_names_distinct(r1: nat, s1: nat, r2: nat, s2: nat)
    ensures
        stats_file_text(r1, s1) == stats_file_text(r2, s2) ==> r1 == r2 && s1 == s2,
{
    if stats_file_text(r1, s1) == stats_file_text(r2, s2) {
        lemma_name_parts(r1, s1);
        lemma_name_parts(r2, s2);
        let tail = seq!['t', 'x', 't'];
        lemma_strip_prefix(
            "pipevision_"@,
            decimal(r1) + seq!['_'] + (decimal(s1) + seq!['.'] + tail),
            decimal(r2) + seq!['_'] + (decimal(s2) + seq!['.'] + tail),
        );
        lemma_digits_then_sep(
            decimal(r1),
            '_',
            decimal(s1) + seq!['.'] + tail,
            decimal(r2),
            '_',
            decimal(s2) + seq!['.'] + tail,
        );
        lemma_digits_then_sep(decimal(s1), '.', tail, decimal(s2), '.', tail);
        lemma_decimal_injective(r1, r2);
        lemma_decimal_injective(s1, s2);
    }
}

/// Law: different (run, stage) pairs have different captured-output file names, and no
/// captured-output file name is a statistics file name.
pub proof fn law_output_names_distinct(r1: nat, s1: nat, r2: nat, s2: nat)
    ensures
        output_file_text(r1, s1) == output_file_text(r2, s2) ==> r1 == r2 && s1 == s2,
        output_file_text(r1, s1) != stats_file_text(r2, s2),
{
    lemma_name_parts(r1, s1);
    lemma_name_parts(r2, s2);
    let out = seq!['o', 'u', 't', 'p', 'u', 't', '.', 't', 'x', 't'];
    let tail = seq!['t', 'x', 't'];
    if output_file_text(r1, s1) == output_file_text(r2, s2) {
        lemma_strip_prefix(
            "pipevision_"@,
            decimal(r1) + seq!['_'] + (decimal(s1) + seq!['_'] + out),
            decimal(r2) + seq!['_'] + (decimal(s2) + seq!['_'] + out),
        );
        lemma_digits_then_sep(
            decimal(r1),
            '_',
            decimal(s1) + seq!['_'] + out,
            decimal(r2),
            '_',
            decimal(s2) + seq!['_'] + out,
        );
        lemma_digits_then_sep(decimal(s1), '_', out, decimal(s2), '_', out);
        lemma_decimal_injective(r1, r2);
        lemma_decimal_injective(s1, s2);
    }
    if output_file_text(r1, s1) == stats_file_text(r2, s2) {
        lemma_strip_prefix(
            "pipevision_"@,
            decimal(r1) + seq!['_'] + (decimal(s1) + seq!['_'] + out),
            decimal(r2) + seq!['_'] + (decimal(s2) + seq!['.'] + tail),
        );
        lemma_digits_then_sep(
            decimal(r1),
            '_',
            decimal(s1) + seq!['_'] + out,
            decimal(r2),
            '_',
            decimal(s2) + seq!['.'] + tail,
        );
        lemma_digits_then_sep(decimal(s1), '_', out, decimal(s2), '.', tail);
    }
}


/// The line count at the last statistics write after `n` lines, when the statistics are
/// offered for a write right after each line is counted (as
/// [`PipingStatistics::try_write_update`] decides, from a fresh count).
pub open spec fn last_write_after(n: nat) -> nat
    decreases n,
{
    if n == 0 {
        0
    } else {
        let last = last_write_after((n - 1) as nat);
        if n - last >= STATS_UPDATE_INTERVAL {
            n
        } else {
            last
        }
    }
}

/// The number of statistics writes during the first `n` lines, offered as for
/// [`last_write_after`].
pub open spec fn writes_after(n: nat) -> nat
    decreases n,
{
    if n == 0 {
        0
    } else {
        writes_after((n - 1) as nat) + if n - last_write_after((n - 1) as nat)
            >= STATS_UPDATE_INTERVAL {
            1nat
        } else {
            0nat
        }
    }
}

/// Law: from a fresh count, with the statistics offered for a write after every line,
/// line `n` is written exactly when `n` is a multiple of `STATS_UPDATE_INTERVAL`; after
/// `n` lines the last write was at the largest such multiple up to `n`, there were
/// `n / STATS_UPDATE_INTERVAL` writes, and fewer than `STATS_UPDATE_INTERVAL` counted
/// lines are not yet written.
pub proof fn law_stats_cadence_from_start(n: nat)
    ensures
        last_write_after(n) == n - n % (STATS_UPDATE_INTERVAL as nat),
        writes_after(n) == n / (STATS_UPDATE_INTERVAL as nat),
        n - last_write_after(n) < STATS_UPDATE_INTERVAL,
        n >= 1 ==> ((n - last_write_after((n - 1) as nat) >= STATS_UPDATE_INTERVAL) <==> n % (
        STATS_UPDATE_INTERVAL as nat) == 0),
    decreases n,
{
    let i = STATS_UPDATE_INTERVAL as nat;
    if n > 0 {
        let m = (n - 1) as nat;
        law_stats_cadence_from_start(m);
        law_stats_cadence(m, last_write_after(m));
        if n % i == 0 {
            assert(m / i + 1 == n / i);
        } else {
            assert(m / i == n / i);
        }
    }
}

} // verus!
