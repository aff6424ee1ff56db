use pipevision::app::RefreshAction;
use pipevision::app::{App, AppStatus, Key, KeyAction, KeyInput};
use pipevision::pipeline::Pipeline;
use pipevision::stats::StageStatus;

fn key(code: Key) -> KeyInput {
    KeyInput { code, ctrl: false }
}

fn loaded(text: &str) -> App {
    let mut app = App::new();
    app.load_pipeline("pipe.txt", Ok(Pipeline::parse(text).unwrap()));
    app
}

#[test]
fn new_app_waits_for_a_file() {
    let app = App::new();
    assert!(!app.is_loaded());
    assert_eq!(app.num_stages(), 0);
    assert_eq!(app.status, AppStatus::Idle);
    assert_eq!(app.status_message, "> Press [L] to load a pipeline file!");
}

#[test]
fn loading_a_pipeline() {
    let app = loaded("cat x | grep y | sort");
    assert!(app.is_loaded());
    assert_eq!(app.num_stages(), 3);
    assert_eq!(app.pipeline_file.as_deref(), Some("pipe.txt"));
    assert_eq!(app.metrics.len(), 3);
    assert_eq!(app.metrics[1].command, "grep y");
    assert_eq!(app.metrics[1].stage, 2);
    assert_eq!(app.metrics[1].status, StageStatus::Pending);
    assert_eq!(app.status_message, "Press [R] to run the pipeline");
    assert_eq!(app.error_message, None);
}

#[test]
fn loading_error_keeps_state() {
    let mut app = loaded("ls");
    app.load_pipeline("bad.txt", Err("'bad.txt' is empty".to_string()));
    assert!(app.is_loaded());
    assert_eq!(app.pipeline_file.as_deref(), Some("pipe.txt"));
    assert_eq!(app.error_message.as_deref(), Some("'bad.txt' is empty"));
    assert_eq!(app.status_message, "Some error loading that file... Press [L] to try again.");
}

#[test]
fn quit_keys() {
    for code in [Key::Char('q'), Key::Char('Q'), Key::Esc] {
        let mut app = App::new();
        assert_eq!(app.handle_key(key(code)), KeyAction::Nothing);
        assert!(app.should_exit);
    }
}

#[test]
fn stage_selection_moves_within_bounds() {
    let mut app = loaded("a | b | c");
    assert_eq!(app.handle_key(key(Key::Up)), KeyAction::Nothing);
    assert_eq!(app.selected, 0);
    assert_eq!(app.handle_key(key(Key::Down)), KeyAction::LoadStageOutput);
    assert_eq!(app.selected, 1);
    assert_eq!(app.handle_key(key(Key::Char('j'))), KeyAction::LoadStageOutput);
    assert_eq!(app.selected, 2);
    assert_eq!(app.handle_key(key(Key::Down)), KeyAction::Nothing);
    assert_eq!(app.selected, 2);
    assert_eq!(app.handle_key(key(Key::Char('k'))), KeyAction::LoadStageOutput);
    assert_eq!(app.selected, 1);
    assert_eq!(app.output_stage(), Some(2));
}

#[test]
fn output_scrolls_by_ten() {
    let mut app = loaded("a | b");
    app.load_stage_output((0..25).map(|i| i.to_string()).collect());
    assert_eq!(app.output_total_lines(), 25);
    app.handle_key(key(Key::PageDown));
    assert_eq!(app.output_scroll, 10);
    app.handle_key(key(Key::PageDown));
    assert_eq!(app.output_scroll, 20);
    app.handle_key(key(Key::PageDown));
    assert_eq!(app.output_scroll, 24);
    app.handle_key(key(Key::PageUp));
    assert_eq!(app.output_scroll, 14);
    app.handle_key(key(Key::PageUp));
    app.handle_key(key(Key::PageUp));
    assert_eq!(app.output_scroll, 0);
}

#[test]
fn run_and_force_stop() {
    let mut app = loaded("a | b");
    assert_eq!(app.handle_key(key(Key::Char('r'))), KeyAction::Rerun);
    app.begin_run(77);
    assert_eq!(app.status, AppStatus::Running);
    assert_eq!(app.run_id, 77);
    assert_eq!(app.status_message, "Working/Running...");
    assert_eq!(app.handle_key(key(Key::Char('R'))), KeyAction::Nothing);
    assert_eq!(app.handle_key(key(Key::Char('c'))), KeyAction::Nothing);
    assert_eq!(app.status, AppStatus::Running);
    assert_eq!(
        app.handle_key(KeyInput { code: Key::Char('c'), ctrl: true }),
        KeyAction::StopChild
    );
    assert_eq!(app.status, AppStatus::Completed);
    assert_eq!(app.exit_status, None);
    assert_eq!(app.status_message, "ABORTED (force stopped)");
    assert_eq!(app.handle_key(key(Key::Char('x'))), KeyAction::Nothing);
    assert_eq!(app.handle_key(key(Key::Char('r'))), KeyAction::Rerun);
}

#[test]
fn rerun_needs_a_pipeline() {
    let mut app = App::new();
    assert_eq!(app.handle_key(key(Key::Char('r'))), KeyAction::Nothing);
    app.begin_run(5);
    assert_eq!(app.status, AppStatus::Idle);
    assert_eq!(app.run_id, 0);
}

#[test]
fn exit_messages() {
    let mut app = loaded("a");
    app.begin_run(1);
    app.on_pipeline_exit(Some(0));
    assert_eq!(app.status, AppStatus::Completed);
    assert_eq!(app.exit_status, Some(0));
    assert_eq!(app.status_message, "SUCCESS: Completed successfully");
    app.begin_run(2);
    app.on_pipeline_exit(Some(3));
    assert_eq!(app.status_message, "FAILURE: Exited with code 3");
    app.begin_run(3);
    app.on_pipeline_exit(None);
    assert_eq!(app.status_message, "FAILURE: Exited with code -1");
    app.begin_run(4);
    app.on_pipeline_exit(Some(-2147483648));
    assert_eq!(app.status_message, "FAILURE: Exited with code -2147483648");
    app.on_pipeline_error("broken pipe");
    assert_eq!(app.error_message.as_deref(), Some("Pipeline error: broken pipe"));
    assert_eq!(app.status_message, "FAILED");
}

#[test]
fn stall_detection() {
    let mut app = loaded("cat x | grep y | sort");
    app.begin_run(1);
    assert!(!app.final_stage_stalled());
    let files = vec![
        Some("5\n50\n1\n1\ncompleted\n".to_string()),
        Some("0\n0\n0\n0\ncompleted\n".to_string()),
        None,
    ];
    app.refresh_metrics(&files);
    assert!(app.final_stage_stalled());
    let files = vec![
        Some("5\n50\n1\n1\ncompleted\n".to_string()),
        Some("0\n0\n0\n0\nrunning\n".to_string()),
        None,
    ];
    app.refresh_metrics(&files);
    assert!(!app.final_stage_stalled());
}

#[test]
fn filtered_and_reduction() {
    let mut app = loaded("cat x | grep y | sort");
    assert_eq!(app.filtered_lines(1), None);
    let files = vec![
        Some("24\n100\n1\n1\ncompleted\n".to_string()),
        Some("3\n30\n1\n1\ncompleted\n".to_string()),
        Some("0\n0\n1\n1\ncompleted\n".to_string()),
    ];
    app.refresh_metrics(&files);
    assert_eq!(app.filtered_lines(0), None);
    assert_eq!(app.filtered_lines(1), Some(21));
    assert_eq!(app.filtered_lines(2), Some(3));
    assert_eq!(app.filtered_lines(3), None);
    assert_eq!(app.reduction_terms(1), Some((21, 24)));
    assert_eq!(app.reduction_terms(2), Some((3, 3)));
    assert_eq!(app.reduction_terms(0), None);
}

#[test]
fn file_picker_filters_and_selects() {
    let mut app = App::new();
    assert_eq!(app.handle_key(key(Key::Char('l'))), KeyAction::ScanDirectory);
    app.activate_file_input(vec![
        "test.txt".to_string(),
        "Pipe.txt".to_string(),
        "README.md".to_string(),
        "pipe.sh".to_string(),
    ]);
    assert!(app.file_input_active);
    assert_eq!(app.all_files_cache, vec!["Pipe.txt", "README.md", "pipe.sh", "test.txt"]);
    assert_eq!(app.file_suggestions.len(), 4);
    for c in "PIPE".chars() {
        app.handle_key(key(Key::Char(c)));
    }
    assert_eq!(app.file_suggestions, vec!["Pipe.txt", "pipe.sh"]);
    app.handle_key(key(Key::Tab));
    assert_eq!(app.selected_suggestion, 1);
    app.handle_key(key(Key::Down));
    assert_eq!(app.selected_suggestion, 0);
    app.handle_key(key(Key::Up));
    assert_eq!(app.selected_suggestion, 0);
    app.handle_key(key(Key::Tab));
    assert_eq!(
        app.handle_key(key(Key::Enter)),
        KeyAction::LoadFile("pipe.sh".to_string())
    );
    app.handle_key(key(Key::Char('x')));
    assert!(app.file_suggestions.is_empty());
    assert_eq!(app.selected_suggestion, 0);
    assert_eq!(
        app.handle_key(key(Key::Enter)),
        KeyAction::LoadFile("PIPEx".to_string())
    );
    app.handle_key(key(Key::Backspace));
    assert_eq!(app.file_input_buffer, "PIPE");
    assert_eq!(app.file_suggestions.len(), 2);
    app.handle_key(key(Key::Esc));
    assert!(!app.file_input_active);
    assert!(app.file_input_buffer.is_empty());
    assert!(app.file_suggestions.is_empty());
}

#[test]
fn loading_from_picker_closes_it() {
    let mut app = App::new();
    app.activate_file_input(vec!["pipe.txt".to_string()]);
    app.handle_key(key(Key::Char('p')));
    app.load_pipeline("pipe.txt", Ok(Pipeline::parse("ls | wc").unwrap()));
    assert!(!app.file_input_active);
    assert!(app.file_input_buffer.is_empty());
    assert_eq!(app.num_stages(), 2);
}

#[test]
fn select_stage_clamps() {
    let mut app = loaded("a | b | c");
    assert!(app.select_stage(10));
    assert_eq!(app.selected, 2);
    assert_eq!(app.output_scroll, 0);
    let mut empty = App::new();
    assert!(!empty.select_stage(1));
    assert_eq!(empty.output_stage(), None);
}

#[test]
fn after_refresh_decides_the_run() {
    let mut app = loaded("cat x | grep y | sort");
    assert_eq!(app.after_refresh(), RefreshAction::Nothing);
    app.begin_run(1);
    app.refresh_metrics(&vec![Some("5\n50\n1\n1\nrunning\n".to_string()), None, None]);
    assert_eq!(app.after_refresh(), RefreshAction::PollChild);
    assert_eq!(app.status, AppStatus::Running);
    app.refresh_metrics(&vec![
        Some("5\n50\n1\n1\ncompleted\n".to_string()),
        Some("0\n0\n0\n0\ncompleted\n".to_string()),
        None,
    ]);
    assert_eq!(app.after_refresh(), RefreshAction::KillChild);
    assert_eq!(app.status, AppStatus::Completed);
    assert_eq!(app.exit_status, None);
    assert_eq!(app.status_message, "COMPLETED (final stage was stalled, killed)");
}

#[test]
fn opening_the_picker_suggests_every_file() {
    let mut app = loaded("ls");
    app.activate_file_input(vec!["b".to_string(), "a".to_string(), "c".to_string()]);
    assert_eq!(app.file_suggestions, vec!["a", "b", "c"]);
    assert_eq!(app.selected_suggestion, 0);
    assert!(app.is_loaded());
}
