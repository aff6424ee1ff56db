use pipevision::pipeline::{
    output_file_name, parse_cli, parse_run_id_arg, parse_stage_arg, stats_file_name, CliMode,
    LineEffects, Pipeline, PipelineError, PipingStatistics, StageCapture, MAX_OUTPUT_LINES,
    STATS_UPDATE_INTERVAL,
};

fn args(v: &[&str]) -> Vec<String> {
    v.iter().map(|s| s.to_string()).collect()
}

#[test]
fn parses_three_stages() {
    let p = Pipeline::parse("cat x | grep y | sort").unwrap();
    assert_eq!(p.stages, vec!["cat x", "grep y", "sort"]);
    assert_eq!(p.original, "cat x | grep y | sort");
    assert_eq!(p.num_stages(), 3);
}

#[test]
fn single_stage_is_valid() {
    let p = Pipeline::parse("echo hello").unwrap();
    assert_eq!(p.stages, vec!["echo hello"]);
    assert_eq!(p.num_stages(), 1);
}

#[test]
fn trims_text_and_stages() {
    let p = Pipeline::parse("  \n\tcat a.txt|grep  b |  wc -l \n\n").unwrap();
    assert_eq!(p.original, "cat a.txt|grep  b |  wc -l");
    assert_eq!(p.stages, vec!["cat a.txt", "grep  b", "wc -l"]);
}

#[test]
fn trims_unicode_white_space() {
    let p = Pipeline::parse("\u{3000}ls\u{a0}|\u{2009}sort\u{85}").unwrap();
    assert_eq!(p.stages, vec!["ls", "sort"]);
}

#[test]
fn empty_file_is_refused() {
    assert_eq!(Pipeline::parse("").unwrap_err(), PipelineError::Empty);
    assert_eq!(Pipeline::parse("  \n \t ").unwrap_err(), PipelineError::Empty);
    assert_eq!(PipelineError::Empty.message("pipe.txt"), "'pipe.txt' is empty");
}

#[test]
fn trailing_pipe_is_refused() {
    let e = Pipeline::parse("cat x |").unwrap_err();
    assert_eq!(e, PipelineError::TrailingPipe(2));
    assert_eq!(e.message("p.txt"), "'p.txt' stage 2 is empty (trailing pipe?)");
    assert!(e.message("p.txt").contains("stage 2 is empty (trailing pipe?)"));
    assert_eq!(Pipeline::parse("a | b |").unwrap_err(), PipelineError::TrailingPipe(3));
}

#[test]
fn double_pipe_is_refused() {
    let e = Pipeline::parse("cat x || grep y").unwrap_err();
    assert_eq!(e, PipelineError::DoublePipe(2));
    assert!(e.message("p.txt").contains("stage 2 is empty (double pipe?)"));
    assert_eq!(Pipeline::parse("| ls").unwrap_err(), PipelineError::DoublePipe(1));
    assert_eq!(Pipeline::parse("a | b |  | c").unwrap_err(), PipelineError::DoublePipe(3));
    assert_eq!(Pipeline::parse("a || |").unwrap_err(), PipelineError::DoublePipe(2));
    assert_eq!(
        PipelineError::DoublePipe(12).message("x"),
        "'x' stage 12 is empty (double pipe?)"
    );
}

#[test]
fn injected_command_matches_readme() {
    let p = Pipeline::parse("cat test.txt | grep ERROR | sort").unwrap();
    assert_eq!(
        p.build_injected_command(4242, "pipevision"),
        "cat test.txt | pipevision --stage=1 --run-id=4242 --quiet | grep ERROR | pipevision --stage=2 --run-id=4242 --quiet | sort"
    );
}

#[test]
fn injected_command_of_single_stage_is_the_stage() {
    let p = Pipeline::parse("echo hello").unwrap();
    assert_eq!(p.build_injected_command(7, "/usr/bin/pv"), "echo hello");
}

#[test]
fn injected_command_reparses_with_observers() {
    let p = Pipeline::parse("a | b c | d").unwrap();
    let cmd = p.build_injected_command(0, "/bin/pv");
    let q = Pipeline::parse(&cmd).unwrap();
    assert_eq!(
        q.stages,
        vec![
            "a",
            "/bin/pv --stage=1 --run-id=0 --quiet",
            "b c",
            "/bin/pv --stage=2 --run-id=0 --quiet",
            "d"
        ]
    );
}

#[test]
fn stages_rejoin_to_same_stages() {
    let p = Pipeline::parse("  ls -l|  grep  x   |wc ").unwrap();
    let q = Pipeline::parse(&p.stages.join(" | ")).unwrap();
    assert_eq!(p.stages, q.stages);
}

#[test]
fn stats_update_is_due_every_interval() {
    let mut s = PipingStatistics::new();
    assert_eq!(s.total_lines_amount, 0);
    assert!(!s.finished);
    let mut due_at = Vec::new();
    for line in 1..=350usize {
        s.record_line(3);
        if s.try_write_update() {
            due_at.push(line);
        }
    }
    assert_eq!(due_at, vec![100, 200, 300]);
    assert_eq!(s.total_lines_amount, 350);
    assert_eq!(s.total_bytes_amount, 350 * 4);
    assert_eq!(s.last_update_line, 300);
    assert_eq!(STATS_UPDATE_INTERVAL, 100);
}

#[test]
fn capture_keeps_first_lines_and_counts_bytes() {
    let mut c = StageCapture::new();
    let e = c.on_line("héllo".to_string());
    assert_eq!(e, LineEffects { write_stats: false, write_output: false });
    assert_eq!(c.stats.total_lines_amount, 1);
    assert_eq!(c.stats.total_bytes_amount, 7);
    let mut stats_writes = 0;
    let mut output_writes = 0;
    for i in 1..MAX_OUTPUT_LINES + 150 {
        let e = c.on_line(format!("{}", i));
        if e.write_stats {
            stats_writes += 1;
        }
        if e.write_output {
            output_writes += 1;
        }
    }
    assert_eq!(c.output_buffer.len(), MAX_OUTPUT_LINES);
    assert_eq!(c.output_buffer[0], "héllo");
    assert_eq!(c.output_buffer[MAX_OUTPUT_LINES - 1], format!("{}", MAX_OUTPUT_LINES - 1));
    assert_eq!(c.stats.total_lines_amount, MAX_OUTPUT_LINES + 150);
    assert_eq!(stats_writes, (MAX_OUTPUT_LINES + 150) / 100);
    // every multiple of 100 kept lines, then once per line while the buffer is full
    assert_eq!(output_writes, MAX_OUTPUT_LINES / 100 + 150);
    c.finish();
    assert!(c.stats.finished);
}

#[test]
fn cli_injected_mode() {
    assert_eq!(
        parse_cli(&args(&["pv", "--stage=2", "--run-id=9", "--quiet"])),
        CliMode::Injected { quiet: true }
    );
    assert_eq!(
        parse_cli(&args(&["pv", "--stage=x"])),
        CliMode::Injected { quiet: false }
    );
}

#[test]
fn cli_interactive_mode() {
    assert_eq!(
        parse_cli(&args(&["pv"])),
        CliMode::Interactive { file: None }
    );
    assert_eq!(
        parse_cli(&args(&["pv", "--verbose", "pipe.txt", "other"])),
        CliMode::Interactive { file: Some("pipe.txt".to_string()) }
    );
    assert_eq!(
        parse_cli(&args(&["pv", "--quiet"])),
        CliMode::Interactive { file: None }
    );
}

#[test]
fn stage_and_run_id_args() {
    let a = args(&["pv", "--stage=abc", "--stage=+3", "--run-id=12345", "--stage=4"]);
    assert_eq!(parse_stage_arg(&a), 3);
    assert_eq!(parse_run_id_arg(&a), 12345);
    let b = args(&["pv", "--run-id=4294967296"]);
    assert_eq!(parse_stage_arg(&b), 1);
    assert_eq!(parse_run_id_arg(&b), 0);
    let c = args(&["pv", "--run-id=4294967295"]);
    assert_eq!(parse_run_id_arg(&c), 4294967295);
}

#[test]
fn file_names() {
    assert_eq!(stats_file_name(42, 3), "pipevision_42_3.txt");
    assert_eq!(output_file_name(42, 3), "pipevision_42_3_output.txt");
}

#[test]
fn file_names_differ() {
    assert_ne!(stats_file_name(1, 23), stats_file_name(12, 3));
    assert_ne!(output_file_name(1, 23), output_file_name(12, 3));
    assert_ne!(output_file_name(4, 5), stats_file_name(4, 5));
}
