use pipevision::pipeline::{PipingStatistics, StageCapture};
use pipevision::stats::{collect_all, parse_stats, stage_output_lines, StageMetrics, StageStatus};

#[test]
fn parses_completed_stats() {
    let m = parse_stats("24\n512\n10.0000\n200.5000\ncompleted\n", 2).unwrap();
    assert_eq!(m.stage, 2);
    assert_eq!(m.command, "");
    assert_eq!(m.total_lines, 24);
    assert_eq!(m.total_bytes, 512);
    assert_eq!(m.lines_per_second, "10.0000");
    assert_eq!(m.bytes_per_second, "200.5000");
    assert_eq!(m.status, StageStatus::Completed);
}

#[test]
fn parses_running_stats_and_bad_numbers() {
    let m = parse_stats("x\r\n+7\n1\n2\nrunning\n", 1).unwrap();
    assert_eq!(m.total_lines, 0);
    assert_eq!(m.total_bytes, 7);
    assert_eq!(m.status, StageStatus::Running);
    let m = parse_stats("1\n2\n3\n4", 1).unwrap();
    assert_eq!(m.status, StageStatus::Running);
    let m = parse_stats("-1\n99999999999999999999999\n3\n4\ncompleted", 1).unwrap();
    assert_eq!(m.total_lines, 0);
    assert_eq!(m.total_bytes, 0);
    assert_eq!(m.status, StageStatus::Completed);
}

#[test]
fn short_stats_are_ignored() {
    assert!(parse_stats("1\n2\n3\n", 1).is_none());
    assert!(parse_stats("", 1).is_none());
}

#[test]
fn pending_metrics() {
    let m = StageMetrics::pending(3, "sort".to_string());
    assert_eq!(m.stage, 3);
    assert_eq!(m.command, "sort");
    assert_eq!(m.total_lines, 0);
    assert_eq!(m.status, StageStatus::Pending);
}

#[test]
fn collects_all_stages() {
    let commands = vec!["cat x".to_string(), "grep y".to_string()];
    let contents = vec![Some("3\n30\n1\n10\ncompleted\n".to_string()), None];
    let ms = collect_all(3, &commands, &contents);
    assert_eq!(ms.len(), 3);
    assert_eq!(ms[0].stage, 1);
    assert_eq!(ms[0].command, "cat x");
    assert_eq!(ms[0].total_lines, 3);
    assert_eq!(ms[0].status, StageStatus::Completed);
    assert_eq!(ms[1].stage, 2);
    assert_eq!(ms[1].command, "grep y");
    assert_eq!(ms[1].status, StageStatus::Pending);
    assert_eq!(ms[2].stage, 3);
    assert_eq!(ms[2].command, "");
    assert_eq!(ms[2].status, StageStatus::Pending);
}

#[test]
fn output_lines_follow_str_lines() {
    for text in ["", "a", "a\n", "a\r\nb", "a\n\nb\n", "\n", "a\r", "x\ry\n\r\n"] {
        let expected: Vec<String> = text.lines().map(|l| l.to_string()).collect();
        assert_eq!(stage_output_lines(text), expected, "for {:?}", text);
    }
}

#[test]
fn stats_file_reads_back() {
    let mut s = PipingStatistics::new();
    for _ in 0..12 {
        s.record_line(9);
    }
    let text = s.stats_file_content("3.5000", "35.0000");
    assert_eq!(text, "12\n120\n3.5000\n35.0000\nrunning\n");
    let m = parse_stats(&text, 4).unwrap();
    assert_eq!(m.stage, 4);
    assert_eq!(m.total_lines, 12);
    assert_eq!(m.total_bytes, 120);
    assert_eq!(m.lines_per_second, "3.5000");
    assert_eq!(m.bytes_per_second, "35.0000");
    assert_eq!(m.status, StageStatus::Running);
    s.finished = true;
    let m = parse_stats(&s.stats_file_content("1", "2"), 4).unwrap();
    assert_eq!(m.status, StageStatus::Completed);
}

#[test]
fn output_file_reads_back() {
    let mut c = StageCapture::new();
    for l in ["first", "", "third line", "last"] {
        c.on_line(l.to_string());
    }
    let text = c.output_file_content();
    assert_eq!(text, "first\n\nthird line\nlast");
    assert_eq!(stage_output_lines(&text), vec!["first", "", "third line", "last"]);
    assert_eq!(StageCapture::new().output_file_content(), "");
}
