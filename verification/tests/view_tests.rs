use pipevision::pipeline::Pipeline;
use pipevision::app::{App, AppStatus, Key, KeyInput};
use pipevision::stats::{StageMetrics, StageStatus};
use pipevision::view::{empty_output_message, footer_labels, stage_label, status_badge, Tone};
use pipevision::view::{
    byte_unit_index, byte_unit_name, clip_output_line, count_cell, file_input_display, format_num,
    format_whole_bytes, header_pipeline_text, lines_in_out, output_header, output_window,
    shorten_command, stages_info,
};

#[test]
fn numbers_are_grouped() {
    assert_eq!(format_num(0), "0");
    assert_eq!(format_num(999), "999");
    assert_eq!(format_num(1000), "1,000");
    assert_eq!(format_num(1234567), "1,234,567");
    assert_eq!(format_num(100000), "100,000");
    assert_eq!(format_num(usize::MAX), {
        let s = usize::MAX.to_string();
        let mut r = String::new();
        for (i, c) in s.chars().rev().enumerate() {
            if i > 0 && i % 3 == 0 {
                r.push(',');
            }
            r.push(c);
        }
        r.chars().rev().collect::<String>()
    });
}

#[test]
fn commands_are_shortened() {
    assert_eq!(shorten_command("sort", 20), "sort");
    assert_eq!(shorten_command("grep -v something-long-here", 20), "grep -v something...");
    assert_eq!(shorten_command("abcdef", 6), "abcdef");
    assert_eq!(shorten_command("abcdefg", 2), "...");
    assert_eq!(shorten_command("héllo wörld", 8), "héll...");
}

#[test]
fn header_and_output_clipping() {
    assert_eq!(header_pipeline_text("cat x | sort", 20), "cat x | sort");
    assert_eq!(header_pipeline_text("cat x | sort", 14), "cat x |...");
    assert_eq!(clip_output_line("0123456789", 10), "0123456789");
    assert_eq!(clip_output_line("0123456789", 8), "01234...");
}

#[test]
fn typed_path_shows_its_end() {
    assert_eq!(file_input_display("pipe.txt", 20), "pipe.txt");
    assert_eq!(file_input_display("some/long/path/pipe.txt", 10), "...ipe.txt");
}

#[test]
fn output_window_bounds() {
    assert_eq!(output_window(0, 100, 11), (0, 10));
    assert_eq!(output_window(95, 100, 11), (95, 100));
    assert_eq!(output_window(500, 100, 11), (99, 100));
    assert_eq!(output_window(0, 3, 0), (0, 0));
    assert_eq!(
        output_header(0, 10, 1234),
        "Showing 1-10 of 1,234 lines (including empty lines!)"
    );
}

#[test]
fn table_cells() {
    assert_eq!(count_cell(0), "-");
    assert_eq!(count_cell(12345), "12,345");
    assert_eq!(lines_in_out(Some(1200), 3), "1,200  \u{2192}  3");
    assert_eq!(lines_in_out(None, 3), "3");
    assert_eq!(stages_info(true, 3), "3 stages");
    assert_eq!(stages_info(false, 0), "no pipeline");
}

#[test]
fn byte_units() {
    assert_eq!(byte_unit_index(0), 0);
    assert_eq!(byte_unit_index(1023), 0);
    assert_eq!(byte_unit_index(1024), 1);
    assert_eq!(byte_unit_index(1048575), 1);
    assert_eq!(byte_unit_index(1048576), 2);
    assert_eq!(byte_unit_index(1073741824), 3);
    assert_eq!(byte_unit_index(usize::MAX), 3);
    assert_eq!(byte_unit_name(2), "MB");
    assert_eq!(format_whole_bytes(512), "512 B");
}

#[test]
fn picker_view_lists_suggestions() {
    let mut app = App::new();
    let names: Vec<String> = (0..10).map(|i| format!("f{}.txt", i)).collect();
    app.activate_file_input(names);
    let v = pipevision::view::picker_view(&app, 20);
    assert_eq!(v.input, "");
    assert_eq!(v.count.as_deref(), Some(" (8/10)"));
    assert_eq!(v.items.len(), 8);
    assert_eq!(v.items[0].text, "   \u{2192} f0.txt");
    assert!(v.items[0].selected);
    assert_eq!(v.items[1].text, "     f1.txt");
    assert!(!v.items[1].selected);
    assert_eq!(v.more.as_deref(), Some("   \u{2026} and 2 more"));
    assert!(!v.no_match);
    assert_eq!(v.help, "  Enter to load  \u{2191}/\u{2193} Navigate  Tab Cycle  Esc Cancel");
}

#[test]
fn picker_view_without_match() {
    let mut app = App::new();
    app.activate_file_input(vec!["a.txt".to_string()]);
    app.handle_key(KeyInput { code: Key::Char('z'), ctrl: false });
    let v = pipevision::view::picker_view(&app, 20);
    assert_eq!(v.input, "z");
    assert!(v.count.is_none());
    assert!(v.items.is_empty());
    assert!(v.more.is_none());
    assert!(v.no_match);
    assert_eq!(v.help, "  Enter to load, Esc to cancel");
}

#[test]
fn badges_and_labels() {
    assert_eq!(status_badge(AppStatus::Idle, None), ("\u{25cb}".to_string(), Tone::Gray));
    assert_eq!(status_badge(AppStatus::Running, None), ("\u{25cf}".to_string(), Tone::Green));
    assert_eq!(status_badge(AppStatus::Completed, Some(0)), ("\u{2713}".to_string(), Tone::Green));
    assert_eq!(status_badge(AppStatus::Completed, Some(1)), ("\u{2717}".to_string(), Tone::Red));
    let mut m = StageMetrics::pending(3, "sort".to_string());
    assert_eq!(stage_label(&m), "\u{25cb} 3");
    m.status = StageStatus::Completed;
    assert_eq!(stage_label(&m), "\u{2713} 3");
    assert_eq!(empty_output_message(AppStatus::Running), "Waiting for stage output...");
    assert_eq!(empty_output_message(AppStatus::Idle), "No output captured for this stage.");
    assert_eq!(footer_labels(AppStatus::Completed), (" [R] Rerun ".to_string(), "".to_string()));
    assert_eq!(footer_labels(AppStatus::Running), (" [R] Run ".to_string(), " [X] Abort ".to_string()));
}

#[test]
fn detail_view_rows() {
    let mut app = App::new();
    assert!(pipevision::view::detail_view(&app).is_none());
    app.load_pipeline("p", Ok(Pipeline::parse("cat x | grep y").unwrap()));
    let d = pipevision::view::detail_view(&app).unwrap();
    assert_eq!(d.index, 0);
    assert_eq!(d.command, "cat x");
    assert_eq!(d.status, StageStatus::Pending);
    assert!(d.in_out.is_none());
    assert!(d.filtered.is_none());
    app.refresh_metrics(&vec![
        Some("1200\n9\n1\n1\ncompleted\n".to_string()),
        Some("3\n9\n1\n1\nrunning\n".to_string()),
    ]);
    app.select_stage(1);
    let d = pipevision::view::detail_view(&app).unwrap();
    assert_eq!(d.index, 1);
    assert_eq!(d.command, "grep y");
    assert_eq!(d.status, StageStatus::Running);
    assert_eq!(d.in_out.as_deref(), Some("1,200  \u{2192}  3"));
    assert_eq!(d.filtered, Some(1197));
}
