use vstd::prelude::*;

use crate::pipeline::Pipeline;
use crate::stats::{collect_all, stage_metrics_of, StageMetrics, StageStatus};
use crate::text::{
    append_chars, chars_of, contains_chars, contains_run, lex_le, lowercase, pop_char, push_char,
    push_signed_decimal, signed_decimal, sort_strings, sorted, string_of, to_lowercase, views,
};

verus! {

/// Where the viewer is with the loaded pipeline.
#[derive(Debug, Clone, Copy, PartialEq, Eq, Structural)]
pub enum AppStatus {
    Idle,
    Running,
    Completed,
}

/// A key the viewer reacts to.
#[derive(Debug, Clone, Copy, PartialEq, Eq, Structural)]
pub enum Key {
    Char(char),
    Backspace,
    Enter,
    Tab,
    Up,
    Down,
    PageUp,
    PageDown,
    Esc,
    Other,
}

/// A key press, with whether Control was held.
#[derive(Debug, Clone, Copy, PartialEq, Eq, Structural)]
pub struct KeyInput {
    pub code: Key,
    pub ctrl: bool,
}

/// What the viewer's surroundings must do after a key press.
#[derive(Debug, Clone, PartialEq, Eq)]
pub enum KeyAction {
    Nothing,
    /// Read this pipeline file and hand the outcome to `load_pipeline`.
    LoadFile(String),
    /// List the files of the working directory and hand them to `activate_file_input`.
    ScanDirectory,
    /// Stop the running pipeline's process.
    StopChild,
    /// Stop the pipeline's process if any, remove its files, and start it again.
    Rerun,
    /// Read the selected stage's captured output and hand it to `load_stage_output`.
    LoadStageOutput,
}

/// What the surroundings do after the metrics and output of a run were read anew.
#[derive(Debug, Clone, Copy, PartialEq, Eq, Structural)]
pub enum RefreshAction {
    /// No run is going.
    Nothing,
    /// The run stalled and is over: stop its process.
    KillChild,
    /// The run goes on: see whether its process has exited.
    PollChild,
}

/// The viewer's state.
pub struct App {
    pub pipeline: Option<Pipeline>,
    pub pipeline_file: Option<String>,
    pub metrics: Vec<StageMetrics>,
    pub stage_output: Vec<String>,
    pub output_scroll: usize,
    pub run_id: u32,
    pub status: AppStatus,
    pub selected: usize,
    pub should_exit: bool,
    pub status_message: String,
    pub error_message: Option<String>,
    pub exit_status: Option<i32>,
    pub file_input_active: bool,
    pub file_input_buffer: String,
    pub file_suggestions: Vec<String>,
    pub selected_suggestion: usize,
    /// The names of the files of the working directory, in order.
    pub all_files_cache: Vec<String>,
}

/// `name` contains `query`, both in lower case (the file picker's filter).
pub open spec fn matches_query(name: Seq<char>, query: Seq<char>) -> bool {
    query.len() == 0 || contains_run(lowercase(name), lowercase(query))
}

/// The names of `cache` that match `query`, in their order.
pub open spec fn suggestions_for(cache: Seq<String>, query: Seq<char>) -> Seq<String> {
    cache.filter(|f: String| matches_query(f@, query))
}

/// A selection kept inside a list of `len` entries: the last one when past the end.
pub open spec fn clamp_selection(sel: usize, len: nat) -> usize {
    if sel >= len {
        if len == 0 {
            0
        } else {
            (len - 1) as usize
        }
    } else {
        sel
    }
}

/// `ms` are the pending metrics of the commands `stages`.
pub open spec fn pending_metrics(stages: Seq<String>, ms: Seq<StageMetrics>) -> bool {
    &&& ms.len() == stages.len()
    &&& forall|i: int|
        0 <= i < ms.len() ==> {
            &&& (#[trigger] ms[i]).stage == i + 1
            &&& ms[i].command@ == stages[i]@
            &&& ms[i].total_lines == 0
            &&& ms[i].total_bytes == 0
            &&& ms[i].lines_per_second@.len() == 0
            &&& ms[i].bytes_per_second@.len() == 0
            &&& ms[i].status == StageStatus::Pending
        }
}

fn make_pending_metrics(pipeline: &Pipeline) -> (r: Vec<StageMetrics>)
    ensures
        pending_metrics(pipeline.stages@, r@),
{
    let mut r: Vec<StageMetrics> = Vec::new();
    for i in 0..pipeline.stages.len()
        invariant
            r@.len() == i,
            forall|k: int|
                0 <= k < i ==> {
                    &&& (#[trigger] r@[k]).stage == k + 1
                    &&& r@[k].command@ == pipeline.stages@[k]@
                    &&& r@[k].total_lines == 0
                    &&& r@[k].total_bytes == 0
                    &&& r@[k].lines_per_second@.len() == 0
                    &&& r@[k].bytes_per_second@.len() == 0
                    &&& r@[k].status == StageStatus::Pending
                },
    {
        let cmd = pipeline.stages[i].clone();
        r.push(StageMetrics::pending(i + 1, cmd));
    }
    r
}

/// The text of the status line after a finished run with exit code `code`.
pub open spec fn exit_message(code: Option<i32>) -> Seq<char> {
    if code == Some(0i32) {
        "SUCCESS: Completed successfully"@
    } else {
        "FAILURE: Exited with code "@ + signed_decimal(
            match code {
                Some(c) => c as int,
                None => -1,
            },
        )
    }
}

impl App {
    /// The number of stages of the loaded pipeline, 0 when none is loaded.
    pub open spec fn stage_count(&self) -> nat {
        match self.pipeline {
            Some(p) => p.stages@.len(),
            None => 0,
        }
    }

    /// The loaded pipeline is one that reading a file can give, with one metrics entry
    /// per stage and a selected stage among them; the file picker's selection is among
    /// its suggestions; the directory listing is in order.
    pub open spec fn wf(&self) -> bool {
        &&& (self.pipeline matches Some(p) ==> {
            &&& p.wf()
            &&& self.metrics@.len() == p.stages@.len()
            &&& self.selected < p.stages@.len()
        })
        &&& (self.file_input_active && self.file_suggestions@.len() > 0)
            ==> self.selected_suggestion < self.file_suggestions@.len()
        &&& sorted(views(self.all_files_cache@))
    }

    /// The viewer before any file is loaded.
    pub fn new() -> (r: App)
        ensures
            r.wf(),
            r.pipeline is None,
            r.pipeline_file is None,
            r.metrics@.len() == 0,
            r.stage_output@.len() == 0,
            r.output_scroll == 0,
            r.run_id == 0,
            r.status == AppStatus::Idle,
            r.selected == 0,
            !r.should_exit,
            r.status_message@ == "> Press [L] to load a pipeline file!"@,
            r.error_message is None,
            r.exit_status is None,
            !r.file_input_active,
            r.file_input_buffer@.len() == 0,
            r.file_suggestions@.len() == 0,
            r.selected_suggestion == 0,
            r.all_files_cache@.len() == 0,
    {
        App {
            pipeline: None,
            pipeline_file: None,
            metrics: Vec::new(),
            stage_output: Vec::new(),
            output_scroll: 0,
            run_id: 0,
            status: AppStatus::Idle,
            selected: 0,
            should_exit: false,
            status_message: string_of(&chars_of("> Press [L] to load a pipeline file!")),
            error_message: None,
            exit_status: None,
            file_input_active: false,
            file_input_buffer: String::new(),
            file_suggestions: Vec::new(),
            selected_suggestion: 0,
            all_files_cache: Vec::new(),
        }
    }

    /// Whether a pipeline is loaded.
    pub fn is_loaded(&self) -> (b: bool)
        ensures
            b == self.pipeline is Some,
    {
        self.pipeline.is_some()
    }

    /// The number of stages of the loaded pipeline, 0 when none is loaded.
    pub fn num_stages(&self) -> (n: usize)
        ensures
            n == self.stage_count(),
    {
        match &self.pipeline {
            Some(p) => p.num_stages(),
            None => 0,
        }
    }

    /// Recomputes the file picker's suggestions for the typed text, and keeps the
    /// selection among them.
    fn update_suggestions(&mut self)
        ensures
            final(self).file_suggestions@ == suggestions_for(
                old(self).all_files_cache@,
                old(self).file_input_buffer@,
            ),
            final(self).selected_suggestion == clamp_selection(
                old(self).selected_suggestion,
                final(self).file_suggestions@.len(),
            ),
            *final(self) == (App {
                file_suggestions: final(self).file_suggestions,
                selected_suggestion: final(self).selected_suggestion,
                ..*old(self)
            }),
    {
        let empty_query = self.file_input_buffer.as_str().is_empty();
        let query = to_lowercase(self.file_input_buffer.as_str());
        let qc = chars_of(query.as_str());
        let ghost q = self.file_input_buffer@;
        let ghost pred = |f: String| matches_query(f@, q);
        let mut found: Vec<String> = Vec::new();
        for i in 0..self.all_files_cache.len()
            invariant
                qc@ == lowercase(q),
                q == self.file_input_buffer@,
                empty_query == (q.len() == 0),
                pred == (|f: String| matches_query(f@, q)),
                found@ == self.all_files_cache@.take(i as int).filter(pred),
        {
            let name = &self.all_files_cache[i];
            let lower = to_lowercase(name.as_str());
            let lc = chars_of(lower.as_str());
            let hit = empty_query || contains_chars(&lc, &qc);
            proof {
                let t = self.all_files_cache@.take(i + 1);
                assert(t.drop_last() =~= self.all_files_cache@.take(i as int));
                assert(t.last() == self.all_files_cache@[i as int]);
                assert(hit == pred(self.all_files_cache@[i as int]));
                reveal_with_fuel(Seq::filter, 1);
                assert(t.filter(pred) == (if pred(t.last()) {
                    t.drop_last().filter(pred).push(t.last())
                } else {
                    t.drop_last().filter(pred)
                }));
            }
            if hit {
                let c = name.clone();
                found.push(c);
            }
        }
        assert(self.all_files_cache@.take(self.all_files_cache@.len() as int)
            =~= self.all_files_cache@);
        self.file_suggestions = found;
        if self.selected_suggestion >= self.file_suggestions.len() {
            self.selected_suggestion = self.file_suggestions.len().saturating_sub(1);
        }
    }

    /// Opens the file picker on the files `files` of the working directory: an empty
    /// query, the names in order, all of them suggested, the first one selected.
    pub fn activate_file_input(&mut self, files: Vec<String>)
        requires
            old(self).wf(),
        ensures
            final(self).wf(),
            final(self).file_input_active,
            final(self).file_input_buffer@.len() == 0,
            sorted(views(final(self).all_files_cache@)),
            final(self).all_files_cache@.to_multiset() == files@.to_multiset(),
            final(self).file_suggestions@ == final(self).all_files_cache@,
            final(self).selected_suggestion == 0,
            *final(self) == (App {
                file_input_active: true,
                file_input_buffer: final(self).file_input_buffer,
                all_files_cache: final(self).all_files_cache,
                file_suggestions: final(self).file_suggestions,
                selected_suggestion: 0,
                ..*old(self)
            }),
    {
        self.file_input_active = true;
        self.file_input_buffer = String::new();
        self.selected_suggestion = 0;
        self.all_files_cache = sort_strings(&files);
        self.update_suggestions();
        proof {
            lemma_empty_query_keeps_all(self.all_files_cache@);
        }
    }

    /// Takes the outcome of reading the pipeline file at `path`: a pipeline to show, or
    /// the text of what went wrong. Either way the file picker closes.
    pub fn load_pipeline(&mut self, path: &str, loaded: Result<Pipeline, String>)
        requires
            old(self).wf(),
            loaded matches Ok(p) ==> p.wf(),
        ensures
            final(self).wf(),
            !final(self).file_input_active,
            final(self).file_input_buffer@.len() == 0,
            match loaded {
                Ok(p) => {
                    &&& final(self).pipeline == Some(p)
                    &&& final(self).pipeline_file matches Some(f) && f@ == path@
                    &&& pending_metrics(p.stages@, final(self).metrics@)
                    &&& final(self).status_message@ == "Press [R] to run the pipeline"@
                    &&& final(self).stage_output@.len() == 0
                    &&& *final(self) == (App {
                        pipeline: Some(p),
                        pipeline_file: final(self).pipeline_file,
                        metrics: final(self).metrics,
                        status: AppStatus::Idle,
                        status_message: final(self).status_message,
                        error_message: None,
                        selected: 0,
                        stage_output: final(self).stage_output,
                        output_scroll: 0,
                        file_input_active: false,
                        file_input_buffer: final(self).file_input_buffer,
                        ..*old(self)
                    })
                },
                Err(e) => {
                    &&& final(self).error_message == Some(e)
                    &&& final(self).status_message@
                        == "Some error loading that file... Press [L] to try again."@
                    &&& *final(self) == (App {
                        error_message: Some(e),
                        status_message: final(self).status_message,
                        file_input_active: false,
                        file_input_buffer: final(self).file_input_buffer,
                        ..*old(self)
                    })
                },
            },
    {
        match loaded {
            Ok(pipeline) => {
                proof {
                    pipeline.lemma_has_stages();
                }
                self.metrics = make_pending_metrics(&pipeline);
                self.pipeline = Some(pipeline);
                self.pipeline_file = Some(string_of(&chars_of(path)));
                self.status = AppStatus::Idle;
                self.status_message = string_of(&chars_of("Press [R] to run the pipeline"));
                self.error_message = None;
                self.selected = 0;
                self.stage_output = Vec::new();
                self.output_scroll = 0;
                self.file_input_active = false;
                self.file_input_buffer = String::new();
            },
            Err(error_in_pipeline) => {
                self.error_message = Some(error_in_pipeline);
                self.status_message = string_of(
                    &chars_of("Some error loading that file... Press [L] to try again."),
                );
                self.file_input_active = false;
                self.file_input_buffer = String::new();
            },
        }
    }

    /// The state of a run that has just been started with number `run_id`; nothing
    /// changes when no pipeline is loaded.
    pub fn begin_run(&mut self, run_id: u32)
        requires
            old(self).wf(),
        ensures
            final(self).wf(),
            old(self).pipeline is None ==> *final(self) == *old(self),
            old(self).pipeline matches Some(p) ==> {
                &&& pending_metrics(p.stages@, final(self).metrics@)
                &&& final(self).status_message@ == "Working/Running..."@
                &&& final(self).stage_output@.len() == 0
                &&& *final(self) == (App {
                    run_id,
                    status: AppStatus::Running,
                    exit_status: None,
                    error_message: None,
                    status_message: final(self).status_message,
                    metrics: final(self).metrics,
                    stage_output: final(self).stage_output,
                    output_scroll: 0,
                    ..*old(self)
                })
            },
    {
        let metrics = match &self.pipeline {
            Some(p) => make_pending_metrics(p),
            None => {
                return ;
            },
        };
        self.run_id = run_id;
        self.status = AppStatus::Running;
        self.exit_status = None;
        self.error_message = None;
        self.status_message = string_of(&chars_of("Working/Running..."));
        self.metrics = metrics;
        self.stage_output = Vec::new();
        self.output_scroll = 0;
    }

    /// The run is over, with exit code `exit` if it has one, and `message` for the
    /// status line.
    pub fn complete(&mut self, exit: Option<i32>, message: String)
        requires
            old(self).wf(),
        ensures
            final(self).wf(),
            *final(self) == (App {
                status: AppStatus::Completed,
                exit_status: exit,
                status_message: message,
                ..*old(self)
            }),
    {
        self.status = AppStatus::Completed;
        self.exit_status = exit;
        self.status_message = message;
    }

    /// Stops a running pipeline: true when one was running, which is then aborted.
    pub fn force_stop(&mut self) -> (stopped: bool)
        requires
            old(self).wf(),
        ensures
            final(self).wf(),
            stopped == (old(self).status == AppStatus::Running),
            !stopped ==> *final(self) == *old(self),
            stopped ==> {
                &&& final(self).status_message@ == "ABORTED (force stopped)"@
                &&& *final(self) == (App {
                    status: AppStatus::Completed,
                    exit_status: None,
                    status_message: final(self).status_message,
                    ..*old(self)
                })
            },
    {
        if self.status != AppStatus::Running {
            return false;
        }
        self.complete(None, string_of(&chars_of("ABORTED (force stopped)")));
        true
    }

    /// Reads the stages' statistics files anew (`contents[i]` for stage `i + 1`, `None`
    /// when it could not be read); nothing changes when no pipeline is loaded.
    pub fn refresh_metrics(&mut self, contents: &Vec<Option<String>>)
        requires
            old(self).wf(),
        ensures
            final(self).wf(),
            old(self).pipeline is None ==> *final(self) == *old(self),
            old(self).pipeline matches Some(p) ==> {
                &&& final(self).metrics@.len() == p.stages@.len()
                &&& forall|i: int|
                    0 <= i < p.stages@.len() ==> stage_metrics_of(
                        i,
                        p.stages@,
                        contents@,
                        #[trigger] final(self).metrics@[i],
                    )
                &&& *final(self) == (App { metrics: final(self).metrics, ..*old(self) })
            },
    {
        let metrics = match &self.pipeline {
            Some(p) => collect_all(p.num_stages(), &p.stages, contents),
            None => {
                return ;
            },
        };
        self.metrics = metrics;
    }

    /// The stall of a run whose last observed stage finished without output: no stage
    /// running, some completed, and the stage before the last completed with no lines.
    pub open spec fn stalled(&self) -> bool {
        let n = self.stage_count();
        let m = self.metrics@;
        &&& forall|i: int| 0 <= i < m.len() ==> (#[trigger] m[i]).status != StageStatus::Running
        &&& exists|i: int| 0 <= i < m.len() && (#[trigger] m[i]).status == StageStatus::Completed
        &&& n >= 2
        &&& m.len() >= n
        &&& m[n - 2].status == StageStatus::Completed
        &&& m[n - 2].total_lines == 0
    }

    /// Whether the run has stalled (see [`App::stalled`]); the viewer then stops it.
    pub fn final_stage_stalled(&self) -> (b: bool)
        ensures
            b == self.stalled(),
    {
        let mut none_running = true;
        let mut any_completed = false;
        for i in 0..self.metrics.len()
            invariant
                none_running == forall|k: int|
                    0 <= k < i ==> (#[trigger] self.metrics@[k]).status != StageStatus::Running,
                any_completed == exists|k: int|
                    0 <= k < i && (#[trigger] self.metrics@[k]).status == StageStatus::Completed,
        {
            if self.metrics[i].status == StageStatus::Running {
                none_running = false;
            }
            if self.metrics[i].status == StageStatus::Completed {
                any_completed = true;
            }
        }
        let n = self.num_stages();
        none_running && any_completed && n >= 2 && self.metrics.len() >= n && self.metrics[n
            - 2].status == StageStatus::Completed && self.metrics[n - 2].total_lines == 0
    }

    /// Decides what follows a refresh of the metrics: nothing when no run is going; when
    /// the run has stalled (see [`App::stalled`]), it is completed with no exit code and
    /// the stall's message, and its process is to be stopped; otherwise its process is to be
    /// polled.
    pub fn after_refresh(&mut self) -> (a: RefreshAction)
        requires
            old(self).wf(),
        ensures
            final(self).wf(),
            old(self).status != AppStatus::Running ==> a == RefreshAction::Nothing
                && *final(self) == *old(self),
            old(self).status == AppStatus::Running && old(self).stalled() ==> {
                &&& a == RefreshAction::KillChild
                &&& final(self).status_message@ == "COMPLETED (final stage was stalled, killed)"@
                &&& *final(self) == (App {
                    status: AppStatus::Completed,
                    exit_status: None,
                    status_message: final(self).status_message,
                    ..*old(self)
                })
            },
            old(self).status == AppStatus::Running && !old(self).stalled() ==> a
                == RefreshAction::PollChild && *final(self) == *old(self),
    {
        if self.status != AppStatus::Running {
            return RefreshAction::Nothing;
        }
        if self.final_stage_stalled() {
            self.complete(None, string_of(&chars_of("COMPLETED (final stage was stalled, killed)")));
            return RefreshAction::KillChild;
        }
        RefreshAction::PollChild
    }

    /// The pipeline's process has exited, with exit code `code` when it has one.
    pub fn on_pipeline_exit(&mut self, code: Option<i32>)
        requires
            old(self).wf(),
        ensures
            final(self).wf(),
            final(self).status_message@ == exit_message(code),
            *final(self) == (App {
                status: AppStatus::Completed,
                exit_status: code,
                status_message: final(self).status_message,
                ..*old(self)
            }),
    {
        let msg = if code == Some(0i32) {
            string_of(&chars_of("SUCCESS: Completed successfully"))
        } else {
            let mut v = chars_of("FAILURE: Exited with code ");
            let c = match code {
                Some(c) => c,
                None => -1,
            };
            push_signed_decimal(&mut v, c);
            string_of(&v)
        };
        self.complete(code, msg);
    }

    /// Waiting for the pipeline's process failed with `error`.
    pub fn on_pipeline_error(&mut self, error: &str)
        requires
            old(self).wf(),
        ensures
            final(self).wf(),
            final(self).error_message matches Some(e) && e@ == "Pipeline error: "@ + error@,
            final(self).status_message@ == "FAILED"@,
            *final(self) == (App {
                status: AppStatus::Completed,
                exit_status: None,
                error_message: final(self).error_message,
                status_message: final(self).status_message,
                ..*old(self)
            }),
    {
        let mut v = chars_of("Pipeline error: ");
        append_chars(&mut v, &chars_of(error));
        self.error_message = Some(string_of(&v));
        self.complete(None, string_of(&chars_of("FAILED")));
    }

    /// Selects stage `idx` (0-based, kept among the stages) and scrolls its output to the
    /// top; true when a pipeline is loaded, and the stage's output is then to be read.
    pub fn select_stage(&mut self, idx: usize) -> (load: bool)
        requires
            old(self).wf(),
        ensures
            final(self).wf(),
            load == old(self).pipeline is Some,
            !load ==> *final(self) == *old(self),
            load ==> *final(self) == (App {
                selected: if idx < old(self).stage_count() {
                    idx
                } else {
                    (old(self).stage_count() - 1) as usize
                },
                output_scroll: 0,
                ..*old(self)
            }),
    {
        if !self.is_loaded() {
            return false;
        }
        let max = self.num_stages().saturating_sub(1);
        self.selected = if idx < max {
            idx
        } else {
            max
        };
        self.output_scroll = 0;
        true
    }

    /// The 1-based number of the stage whose output is shown, when a pipeline is loaded.
    pub fn output_stage(&self) -> (r: Option<u32>)
        requires
            self.wf(),
        ensures
            self.pipeline is None ==> r is None,
            self.pipeline is Some ==> r == Some((self.selected + 1) as u32),
    {
        if !self.is_loaded() {
            return None;
        }
        let n = self.num_stages();
        assert(self.selected < n);
        Some((self.selected + 1) as u32)
    }

    /// Takes the lines of the selected stage's output; ignored when no pipeline is loaded.
    pub fn load_stage_output(&mut self, lines: Vec<String>)
        requires
            old(self).wf(),
        ensures
            final(self).wf(),
            old(self).pipeline is None ==> *final(self) == *old(self),
            old(self).pipeline is Some ==> *final(self) == (App {
                stage_output: lines,
                ..*old(self)
            }),
    {
        if !self.is_loaded() {
            return ;
        }
        self.stage_output = lines;
    }

    /// The number of lines of the shown output.
    pub fn output_total_lines(&self) -> (n: usize)
        ensures
            n == self.stage_output@.len(),
    {
        self.stage_output.len()
    }

    /// The lines that stage `stage_index` (0-based) dropped of what the stage before it
    /// passed on: none for the first stage, without a pipeline, when either stage has no
    /// metrics, or when the stage before has not reported yet.
    pub open spec fn filtered_spec(&self, stage_index: nat) -> Option<nat> {
        let m = self.metrics@;
        if stage_index == 0 || self.pipeline is None || stage_index >= m.len() {
            None
        } else if m[stage_index - 1].status == StageStatus::Pending {
            None
        } else if m[stage_index - 1].total_lines >= m[stage_index as int].total_lines {
            Some((m[stage_index - 1].total_lines - m[stage_index as int].total_lines) as nat)
        } else {
            Some(0)
        }
    }

    /// The lines that stage `stage_index` dropped (see [`App::filtered_spec`]).
    pub fn filtered_lines(&self, stage_index: usize) -> (r: Option<usize>)
        ensures
            r matches Some(n) ==> self.filtered_spec(stage_index as nat) == Some(n as nat),
            r is None ==> self.filtered_spec(stage_index as nat) is None,
    {
        if stage_index == 0 || !self.is_loaded() {
            return None;
        }
        if stage_index >= self.metrics.len() {
            return None;
        }
        let previous = &self.metrics[stage_index - 1];
        let current = &self.metrics[stage_index];
        if previous.status == StageStatus::Pending {
            return None;
        }
        Some(previous.total_lines.saturating_sub(current.total_lines))
    }

    /// The two terms of the share of its input that stage `stage_index` dropped: the
    /// lines dropped and the lines of the stage before; none where
    /// [`App::filtered_spec`] has none, or when the stage before passed no line.
    pub fn reduction_terms(&self, stage_index: usize) -> (r: Option<(usize, usize)>)
        ensures
            r is None <==> (self.filtered_spec(stage_index as nat) is None || self.metrics@[
                stage_index - 1].total_lines == 0),
            r matches Some((f, p)) ==> self.filtered_spec(stage_index as nat) == Some(f as nat)
                && p == self.metrics@[stage_index - 1].total_lines && p > 0,
    {
        if stage_index == 0 || !self.is_loaded() || stage_index > self.metrics.len() {
            return None;
        }
        let previous = self.metrics[stage_index - 1].total_lines;
        if previous == 0 {
            return None;
        }
        match self.filtered_lines(stage_index) {
            Some(f) => Some((f, previous)),
            None => None,
        }
    }

    /// What a key does while the file picker is open: typing and erasing refine the
    /// suggestions, Enter asks for the suggested (or typed) file, Tab/Down and Up move the
    /// selection, Esc closes the picker.
    pub open spec fn picker_key_outcome(a: App, k: KeyInput, b: App, act: KeyAction) -> bool {
        let n = a.file_suggestions@.len();
        match k.code {
            Key::Char(c) => {
                &&& act == KeyAction::Nothing
                &&& b.file_input_buffer@ == a.file_input_buffer@.push(c)
                &&& b.file_suggestions@ == suggestions_for(a.all_files_cache@, b.file_input_buffer@)
                &&& b.selected_suggestion == clamp_selection(a.selected_suggestion, b.file_suggestions@.len())
                &&& b == (App {
                    file_input_buffer: b.file_input_buffer,
                    file_suggestions: b.file_suggestions,
                    selected_suggestion: b.selected_suggestion,
                    ..a
                })
            },
            Key::Backspace => {
                &&& act == KeyAction::Nothing
                &&& b.file_input_buffer@ == (if a.file_input_buffer@.len() > 0 {
                    a.file_input_buffer@.drop_last()
                } else {
                    a.file_input_buffer@
                })
                &&& b.file_suggestions@ == suggestions_for(a.all_files_cache@, b.file_input_buffer@)
                &&& b.selected_suggestion == clamp_selection(a.selected_suggestion, b.file_suggestions@.len())
                &&& b == (App {
                    file_input_buffer: b.file_input_buffer,
                    file_suggestions: b.file_suggestions,
                    selected_suggestion: b.selected_suggestion,
                    ..a
                })
            },
            Key::Enter => {
                &&& b == a
                &&& act matches KeyAction::LoadFile(path) && path@ == (if n == 0 {
                    a.file_input_buffer@
                } else {
                    a.file_suggestions@[a.selected_suggestion as int]@
                })
            },
            Key::Tab | Key::Down => {
                &&& act == KeyAction::Nothing
                &&& b == (App {
                    selected_suggestion: if n > 0 {
                        ((a.selected_suggestion + 1) % (n as int)) as usize
                    } else {
                        a.selected_suggestion
                    },
                    ..a
                })
            },
            Key::Up => {
                &&& act == KeyAction::Nothing
                &&& b == (App {
                    selected_suggestion: if n > 0 && a.selected_suggestion > 0 {
                        (a.selected_suggestion - 1) as usize
                    } else {
                        a.selected_suggestion
                    },
                    ..a
                })
            },
            Key::Esc => {
                &&& act == KeyAction::Nothing
                &&& b.file_input_buffer@.len() == 0
                &&& b.file_suggestions@.len() == 0
                &&& b == (App {
                    file_input_active: false,
                    file_input_buffer: b.file_input_buffer,
                    file_suggestions: b.file_suggestions,
                    ..a
                })
            },
            _ => b == a && act == KeyAction::Nothing,
        }
    }

    /// Moving the selection to stage `new`: nothing without a pipeline or when it is the
    /// selected one, else it is selected, scrolled to the top, and its output is to be read.
    pub open spec fn move_outcome(a: App, new: usize, b: App, act: KeyAction) -> bool {
        if a.pipeline is None || new == a.selected {
            b == a && act == KeyAction::Nothing
        } else {
            b == (App { selected: new, output_scroll: 0, ..a }) && act == KeyAction::LoadStageOutput
        }
    }

    /// Stopping from the keyboard: a running pipeline is aborted and its process is to be
    /// stopped; otherwise nothing happens.
    pub open spec fn stop_outcome(a: App, b: App, act: KeyAction) -> bool {
        if a.status == AppStatus::Running {
            &&& act == KeyAction::StopChild
            &&& b.status_message@ == "ABORTED (force stopped)"@
            &&& b == (App {
                status: AppStatus::Completed,
                exit_status: None,
                status_message: b.status_message,
                ..a
            })
        } else {
            b == a && act == KeyAction::Nothing
        }
    }

    /// What a key does in the pipeline view: q/Q/Esc quit, x/X and Control-c stop the run,
    /// l/L open the file picker, r/R run again when loaded and not running, Up/k and
    /// Down/j move among the stages, PageUp/PageDown scroll the output by ten lines.
    pub open spec fn view_key_outcome(a: App, k: KeyInput, b: App, act: KeyAction) -> bool {
        let last = if a.stage_count() > 0 {
            (a.stage_count() - 1) as int
        } else {
            0
        };
        match k.code {
            Key::Char('q') | Key::Char('Q') | Key::Esc => b == (App { should_exit: true, ..a })
                && act == KeyAction::Nothing,
            Key::Char('x') | Key::Char('X') => App::stop_outcome(a, b, act),
            Key::Char('c') if k.ctrl => App::stop_outcome(a, b, act),
            Key::Char('l') | Key::Char('L') => b == a && act == KeyAction::ScanDirectory,
            Key::Char('r') | Key::Char('R') => b == a && act == (if a.pipeline is Some && a.status
                != AppStatus::Running {
                KeyAction::Rerun
            } else {
                KeyAction::Nothing
            }),
            Key::Up | Key::Char('k') => App::move_outcome(
                a,
                if a.selected > 0 {
                    (a.selected - 1) as usize
                } else {
                    0
                },
                b,
                act,
            ),
            Key::Down | Key::Char('j') => App::move_outcome(
                a,
                if a.selected + 1 < last {
                    (a.selected + 1) as usize
                } else {
                    last as usize
                },
                b,
                act,
            ),
            Key::PageUp => b == (App {
                output_scroll: if a.output_scroll >= 10 {
                    (a.output_scroll - 10) as usize
                } else {
                    0
                },
                ..a
            }) && act == KeyAction::Nothing,
            Key::PageDown => b == (App {
                output_scroll: if a.output_scroll + 10 < a.stage_output@.len() - 1 {
                    (a.output_scroll + 10) as usize
                } else if a.stage_output@.len() > 0 {
                    (a.stage_output@.len() - 1) as usize
                } else {
                    0
                },
                ..a
            }) && act == KeyAction::Nothing,
            _ => b == a && act == KeyAction::Nothing,
        }
    }

    /// Reacts to a key press, in the file picker when it is open, else in the pipeline
    /// view, and says what is left for the surroundings to do.
    pub fn handle_key(&mut self, key: KeyInput) -> (act: KeyAction)
        requires
            old(self).wf(),
            !old(self).file_input_active && key.code == Key::PageDown ==> old(self).output_scroll
                + 10 <= usize::MAX,
        ensures
            final(self).wf(),
            old(self).file_input_active ==> App::picker_key_outcome(*old(self), key, *final(self), act),
            !old(self).file_input_active ==> App::view_key_outcome(*old(self), key, *final(self), act),
    {
        if self.file_input_active {
            match key.code {
                Key::Char(c) => {
                    push_char(&mut self.file_input_buffer, c);
                    self.update_suggestions();
                },
                Key::Backspace => {
                    pop_char(&mut self.file_input_buffer);
                    self.update_suggestions();
                },
                Key::Enter => {
                    let path = if self.file_suggestions.len() == 0 {
                        self.file_input_buffer.clone()
                    } else {
                        self.file_suggestions[self.selected_suggestion].clone()
                    };
                    return KeyAction::LoadFile(path);
                },
                Key::Tab | Key::Down => {
                    if self.file_suggestions.len() > 0 {
                        self.selected_suggestion = (self.selected_suggestion + 1)
                            % self.file_suggestions.len();
                    }
                },
                Key::Up => {
                    if self.file_suggestions.len() > 0 {
                        self.selected_suggestion = self.selected_suggestion.saturating_sub(1);
                    }
                },
                Key::Esc => {
                    self.file_input_active = false;
                    self.file_input_buffer = String::new();
                    self.file_suggestions = Vec::new();
                },
                _ => {},
            }
            return KeyAction::Nothing;
        }
        match key.code {
            Key::Char('q') | Key::Char('Q') | Key::Esc => {
                self.should_exit = true;
                KeyAction::Nothing
            },
            Key::Char('x') | Key::Char('X') => {
                if self.force_stop() {
                    KeyAction::StopChild
                } else {
                    KeyAction::Nothing
                }
            },
            Key::Char('c') if key.ctrl => {
                if self.force_stop() {
                    KeyAction::StopChild
                } else {
                    KeyAction::Nothing
                }
            },
            Key::Char('l') | Key::Char('L') => KeyAction::ScanDirectory,
            Key::Char('r') | Key::Char('R') => {
                if self.is_loaded() && self.status != AppStatus::Running {
                    KeyAction::Rerun
                } else {
                    KeyAction::Nothing
                }
            },
            Key::Up | Key::Char('k') => {
                if self.is_loaded() {
                    let new = self.selected.saturating_sub(1);
                    if new != self.selected {
                        self.select_stage(new);
                        return KeyAction::LoadStageOutput;
                    }
                }
                KeyAction::Nothing
            },
            Key::Down | Key::Char('j') => {
                if self.is_loaded() {
                    let max = self.num_stages().saturating_sub(1);
                    let up = self.selected + 1;
                    let new = if up < max {
                        up
                    } else {
                        max
                    };
                    if new != self.selected {
                        self.select_stage(new);
                        return KeyAction::LoadStageOutput;
                    }
                }
                KeyAction::Nothing
            },
            Key::PageUp => {
                self.output_scroll = self.output_scroll.saturating_sub(10);
                KeyAction::Nothing
            },
            Key::PageDown => {
                let max = self.output_total_lines().saturating_sub(1);
                let down = self.output_scroll + 10;
                self.output_scroll = if down < max {
                    down
                } else {
                    max
                };
                KeyAction::Nothing
            },
            _ => KeyAction::Nothing,
        }
    }
}


/// The empty query matches every name.
pub proof fn lemma_empty_query_keeps_all(cache: Seq<String>)
    ensures
        suggestions_for(cache, Seq::<char>::empty()) == cache,
    decreases cache.len(),
{
    reveal_with_fuel(Seq::filter, 1);
    if cache.len() > 0 {
        lemma_empty_query_keeps_all(cache.drop_last());
        assert(cache.drop_last().push(cache.last()) =~= cache);
    }
}

proof fn lemma_filter_members(s: Seq<String>, pred: spec_fn(String) -> bool)
    ensures
        forall|i: int|
            0 <= i < s.filter(pred).len() ==> exists|k: int|
                0 <= k < s.len() && s[k] == #[trigger] s.filter(pred)[i],
    decreases s.len(),
{
    reveal_with_fuel(Seq::filter, 1);
    if s.len() > 0 {
        let t = s.drop_last();
        lemma_filter_members(t, pred);
        assert forall|i: int| 0 <= i < s.filter(pred).len() implies exists|k: int|
            0 <= k < s.len() && s[k] == #[trigger] s.filter(pred)[i] by {
            if i < t.filter(pred).len() {
                assert(s.filter(pred)[i] == t.filter(pred)[i]);
                let k = choose|k: int| 0 <= k < t.len() && t[k] == #[trigger] t.filter(pred)[i];
                assert(s[k] == t[k]);
            } else {
                assert(s.filter(pred)[i] == s.last());
                assert(s[s.len() - 1] == s.last());
            }
        }
    }
}

proof fn lemma_filter_sorted(s: Seq<String>, pred: spec_fn(String) -> bool)
    requires
        sorted(views(s)),
    ensures
        sorted(views(s.filter(pred))),
    decreases s.len(),
{
    reveal_with_fuel(Seq::filter, 1);
    if s.len() > 0 {
        let t = s.drop_last();
        assert forall|a: int, b: int| 0 <= a < b < views(t).len() implies lex_le(
            #[trigger] views(t)[a],
            #[trigger] views(t)[b],
        ) by {
            assert(views(t)[a] == views(s)[a] && views(t)[b] == views(s)[b]);
        }
        lemma_filter_sorted(t, pred);
        lemma_filter_members(t, pred);
        let f = s.filter(pred);
        let ft = t.filter(pred);
        if pred(s.last()) {
            assert forall|a: int, b: int| 0 <= a < b < views(f).len() implies lex_le(
                #[trigger] views(f)[a],
                #[trigger] views(f)[b],
            ) by {
                if b < ft.len() {
                    assert(views(f)[a] == views(ft)[a] && views(f)[b] == views(ft)[b]);
                } else {
                    let k = choose|k: int| 0 <= k < t.len() && t[k] == #[trigger] ft[a];
                    assert(views(f)[a] == views(s)[k]);
                    assert(views(f)[b] == views(s)[s.len() - 1]);
                }
            }
        }
    }
}

/// Law: the file picker's suggestions keep the order of the directory listing, so they
/// are in order whenever it is (as [`App::wf`] has it).
pub proof fn law_suggestions_sorted(cache: Seq<String>, query: Seq<char>)
    requires
        sorted(views(cache)),
    ensures
        sorted(views(suggestions_for(cache, query))),
{
    lemma_filter_sorted(cache, |f: String| matches_query(f@, query));
}

/// Law: a name matches a non-empty query when, both in lower case, the query occurs in
/// the name at any place: at its start, at its end or anywhere between.
pub proof fn law_query_matches_anywhere(
    name: Seq<char>,
    query: Seq<char>,
    before: Seq<char>,
    after: Seq<char>,
)
    requires
        lowercase(name) == before + lowercase(query) + after,
    ensures
        matches_query(name, query),
{
    let hay = lowercase(name);
    let needle = lowercase(query);
    let i = before.len() as int;
    assert(hay.subrange(i, i + needle.len()) =~= needle);
}

/// Law: a name matches a non-empty query only when, both in lower case, the query
/// occurs in the name at some place.
pub proof fn law_query_match_has_place(name: Seq<char>, query: Seq<char>)
    requires
        query.len() > 0,
        matches_query(name, query),
    ensures
        exists|before: Seq<char>, after: Seq<char>|
            lowercase(name) == before + lowercase(query) + after,
{
    let hay = lowercase(name);
    let needle = lowercase(query);
    let i = choose|i: int|
        0 <= i && i + needle.len() <= hay.len() && #[trigger] hay.subrange(i, i + needle.len())
            == needle;
    let before = hay.take(i);
    let after = hay.skip(i + needle.len());
    assert(hay =~= before + needle + after);
}

/// Law: the file picker suggests, of the listed names, exactly those that the typed
/// text matches: all of them for an empty text, else those in which, both in lower
/// case, the text occurs at some place.
pub proof fn law_suggestions_are_matches(cache: Seq<String>, query: Seq<char>, name: String)
    ensures
        suggestions_for(cache, query).contains(name) <==> (cache.contains(name) && (query.len()
            == 0 || exists|before: Seq<char>, after: Seq<char>|
            lowercase(name@) == before + lowercase(query) + after)),
{
    broadcast use vstd::seq_lib::group_filter_ensures;

    let pred = |f: String| matches_query(f@, query);
    if suggestions_for(cache, query).contains(name) {
        cache.lemma_filter_contains_rev(pred, name);
        let k = choose|k: int|
            0 <= k < cache.filter(pred).len() && cache.filter(pred)[k] == name;
        assert(pred(cache.filter(pred)[k]));
        if query.len() > 0 {
            law_query_match_has_place(name@, query);
        }
    }
    if cache.contains(name) && (query.len() == 0 || exists|before: Seq<char>, after: Seq<char>|
        lowercase(name@) == before + lowercase(query) + after) {
        if query.len() > 0 {
            let (before, after) = choose|before: Seq<char>, after: Seq<char>|
                lowercase(name@) == before + lowercase(query) + after;
            law_query_matches_anywhere(name@, query, before, after);
        }
        let k = choose|k: int| 0 <= k < cache.len() && cache[k] == name;
        assert(pred(cache[k]));
    }
}

/// Law: once the stage before has reported (it is running or completed), a stage's
/// filtered count is shown while it runs, and is the stage before's lines less its own,
/// or 0 when it has more; while the stage before has not reported, none is shown.
pub proof fn law_filtered_once_reported(app: App, stage_index: nat)
    requires
        app.wf(),
        app.pipeline is Some,
        1 <= stage_index < app.metrics@.len(),
    ensures
        ({
            let previous = app.metrics@[stage_index - 1];
            let current = app.metrics@[stage_index as int];
            &&& (previous.status == StageStatus::Running || previous.status
                == StageStatus::Completed) ==> app.filtered_spec(stage_index) == Some(
                if previous.total_lines >= current.total_lines {
                    (previous.total_lines - current.total_lines) as nat
                } else {
                    0nat
                },
            )
            &&& previous.status == StageStatus::Pending ==> app.filtered_spec(stage_index) is None
        }),
{
}

/// Law: a run counts as stalled only when no stage is running and the last observed
/// stage (the one before the last) completed without passing a line on; so a run whose
/// last observed stage passed lines on is never stopped as stalled.
pub proof fn law_stall_needs_silent_stage(app: App)
    requires
        app.wf(),
        app.stalled(),
    ensures
        app.stage_count() >= 2,
        forall|i: int|
            0 <= i < app.metrics@.len() ==> (#[trigger] app.metrics@[i]).status
                != StageStatus::Running,
        app.metrics@[app.stage_count() - 2].status == StageStatus::Completed,
        app.metrics@[app.stage_count() - 2].total_lines == 0,
{
}

/// Law: a run in which no stage is running and the last observed stage completed without
/// passing a line on counts as stalled.
pub proof fn law_silent_stage_stalls(app: App)
    requires
        app.wf(),
        app.stage_count() >= 2,
        forall|i: int|
            0 <= i < app.metrics@.len() ==> (#[trigger] app.metrics@[i]).status
                != StageStatus::Running,
        app.metrics@[app.stage_count() - 2].status == StageStatus::Completed,
        app.metrics@[app.stage_count() - 2].total_lines == 0,
    ensures
        app.stalled(),
{
    assert(app.metrics@[app.stage_count() - 2].status == StageStatus::Completed);
}

/// Law: in the file picker, Up moves the selection one suggestion back, and leaves it on
/// the first one; nothing else changes.
pub proof fn law_picker_up_steps_back(a: App, k: KeyInput, b: App, act: KeyAction)
    requires
        a.wf(),
        a.file_input_active,
        k.code == Key::Up,
        App::picker_key_outcome(a, k, b, act),
    ensures
        act == KeyAction::Nothing,
        a.selected_suggestion > 0 && a.file_suggestions@.len() > 0 ==> b.selected_suggestion + 1
            == a.selected_suggestion,
        a.selected_suggestion == 0 ==> b.selected_suggestion == 0,
        b == (App { selected_suggestion: b.selected_suggestion, ..a }),
{
}

/// Law: in the file picker, Down or Tab moves the selection one suggestion on, and from
/// the last one back to the first; without suggestions nothing changes.
pub proof fn law_picker_down_wraps(a: App, k: KeyInput, b: App, act: KeyAction)
    requires
        a.wf(),
        a.file_input_active,
        k.code == Key::Down || k.code == Key::Tab,
        App::picker_key_outcome(a, k, b, act),
    ensures
        act == KeyAction::Nothing,
        a.selected_suggestion + 1 < a.file_suggestions@.len() ==> b.selected_suggestion
            == a.selected_suggestion + 1,
        a.selected_suggestion + 1 == a.file_suggestions@.len() ==> b.selected_suggestion == 0,
        a.file_suggestions@.len() == 0 ==> b == a,
        b == (App { selected_suggestion: b.selected_suggestion, ..a }),
{
    let n = a.file_suggestions@.len();
    assert(a.file_suggestions.len() == n);
    if a.selected_suggestion + 1 < n {
        vstd::arithmetic::div_mod::lemma_small_mod((a.selected_suggestion + 1) as nat, n);
    } else if a.selected_suggestion + 1 == n {
        vstd::arithmetic::div_mod::lemma_mod_self_0(n as int);
    }
}

/// Law: in the file picker, typing or erasing a character keeps the selected suggestion
/// when it is still among the new suggestions, else selects the last one (the first,
/// when there are none).
pub proof fn law_picker_typing_keeps_selection(a: App, k: KeyInput, b: App, act: KeyAction)
    requires
        a.wf(),
        a.file_input_active,
        k.code is Char || k.code == Key::Backspace,
        App::picker_key_outcome(a, k, b, act),
    ensures
        act == KeyAction::Nothing,
        a.selected_suggestion < b.file_suggestions@.len() ==> b.selected_suggestion
            == a.selected_suggestion,
        a.selected_suggestion >= b.file_suggestions@.len() > 0 ==> b.selected_suggestion + 1
            == b.file_suggestions@.len(),
        b.file_suggestions@.len() == 0 ==> b.selected_suggestion == 0,
{
}

/// Law: in the file picker, Up and then Down (or Tab) come back to the suggestion that was
/// selected, when it was not the first; Down and then Up come back to it when it was not
/// the last.
pub proof fn law_picker_up_down_returns(
    a: App,
    k1: KeyInput,
    b: App,
    act1: KeyAction,
    k2: KeyInput,
    c: App,
    act2: KeyAction,
)
    requires
        a.wf(),
        a.file_input_active,
        App::picker_key_outcome(a, k1, b, act1),
        App::picker_key_outcome(b, k2, c, act2),
        (k1.code == Key::Up && (k2.code == Key::Down || k2.code == Key::Tab) && 0
            < a.selected_suggestion) || ((k1.code == Key::Down || k1.code == Key::Tab) && k2.code
            == Key::Up && a.selected_suggestion + 1 < a.file_suggestions@.len()),
        a.selected_suggestion < a.file_suggestions@.len(),
    ensures
        c == a,
{
    let n = a.file_suggestions@.len();
    assert(a.file_suggestions.len() == n);
    if k1.code == Key::Up {
        vstd::arithmetic::div_mod::lemma_small_mod(a.selected_suggestion as nat, n);
    } else {
        vstd::arithmetic::div_mod::lemma_small_mod((a.selected_suggestion + 1) as nat, n);
    }
}

/// Law: in the pipeline view, Up (or k) and then Down (or j) come back to the selected
/// stage when it was not the first, with its output to be read again from the top.
pub proof fn law_view_stage_up_down_returns(
    a: App,
    k1: KeyInput,
    b: App,
    act1: KeyAction,
    k2: KeyInput,
    c: App,
    act2: KeyAction,
)
    requires
        a.wf(),
        !a.file_input_active,
        a.pipeline is Some,
        k1.code == Key::Up || k1.code == Key::Char('k'),
        k2.code == Key::Down || k2.code == Key::Char('j'),
        App::view_key_outcome(a, k1, b, act1),
        App::view_key_outcome(b, k2, c, act2),
        a.selected > 0,
    ensures
        act1 == KeyAction::LoadStageOutput,
        act2 == KeyAction::LoadStageOutput,
        b.selected + 1 == a.selected,
        c == (App { output_scroll: 0, ..a }),
{
}

/// Law: in the pipeline view, PageDown and then PageUp come back to the scrolled-to line
/// when ten more lines are left below it; PageUp and then PageDown come back to it when it
/// is ten lines or more from the top and not the last line.
pub proof fn law_view_page_down_up_returns(
    a: App,
    k1: KeyInput,
    b: App,
    act1: KeyAction,
    k2: KeyInput,
    c: App,
    act2: KeyAction,
)
    requires
        a.wf(),
        !a.file_input_active,
        App::view_key_outcome(a, k1, b, act1),
        App::view_key_outcome(b, k2, c, act2),
        (k1.code == Key::PageDown && k2.code == Key::PageUp && a.output_scroll + 10
            < a.stage_output@.len() - 1) || (k1.code == Key::PageUp && k2.code == Key::PageDown
            && 10 <= a.output_scroll < a.stage_output@.len() - 1),
    ensures
        act1 == KeyAction::Nothing,
        act2 == KeyAction::Nothing,
        c == a,
{
    assert(a.stage_output.len() == a.stage_output@.len());
}

} // verus!
