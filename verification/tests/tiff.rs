use daidori_manager::commands::tiff::{
    find_photoshop_path, numbered_dir, parse_progress, photoshop_install_paths, results_ready,
    with_output_dir, PollDecision, PollState, FINAL_TIMEOUT_POLLS, INITIAL_TIMEOUT_POLLS,
};
use daidori_manager::types::tiff::default_true;
use daidori_manager::types::{TiffConvertConfig, TiffFileConfig, TiffGlobalSettings};

#[test]
fn settings_default_to_flattening() {
    let settings = TiffGlobalSettings::default();
    assert!(settings.flatten_image);
    assert_eq!(settings.color_mode, None);
    assert_eq!(settings.target_width, None);
    assert_eq!(settings.target_height, None);
    assert_eq!(settings.target_dpi, None);
    assert!(default_true());
}

#[test]
fn output_of_every_file_is_redirected() {
    let config = TiffConvertConfig {
        global_settings: TiffGlobalSettings::default(),
        files: vec![
            TiffFileConfig {
                path: "a.psd".to_string(),
                output_path: "old".to_string(),
                output_name: "a".to_string(),
                color_mode: Some("rgb".to_string()),
            },
            TiffFileConfig {
                path: "b.psd".to_string(),
                output_path: "".to_string(),
                output_name: "b".to_string(),
                color_mode: None,
            },
        ],
    };
    let updated = with_output_dir(config, "/out (2)");
    assert_eq!(updated.files.len(), 2);
    assert_eq!(updated.files[0].output_path, "/out (2)");
    assert_eq!(updated.files[1].output_path, "/out (2)");
    assert_eq!(updated.files[0].path, "a.psd");
    assert_eq!(updated.files[0].output_name, "a");
    assert_eq!(updated.files[0].color_mode, Some("rgb".to_string()));
    assert_eq!(updated.files[1].path, "b.psd");
    assert_eq!(updated.files[1].color_mode, None);
    assert!(updated.global_settings.flatten_image);
}

#[test]
fn stand_in_directories_are_numbered() {
    assert_eq!(numbered_dir("/out/tiff", 1), "/out/tiff (1)");
    assert_eq!(numbered_dir("C:\\out", 12), "C:\\out (12)");
    assert_eq!(numbered_dir("", 0), " (0)");
}

#[test]
fn newest_installed_editor_is_found() {
    let paths = photoshop_install_paths();
    assert_eq!(paths.len(), 12);
    assert_eq!(paths[0], r"C:\Program Files\Adobe\Adobe Photoshop 2025\Photoshop.exe");
    assert_eq!(paths[6], r"C:\Program Files\Adobe\Adobe Photoshop CC 2019\Photoshop.exe");
    assert_eq!(paths[8], r"C:\Program Files\Adobe\Adobe Photoshop CC\Photoshop.exe");
    assert_eq!(paths[11], r"C:\Program Files (x86)\Adobe\Adobe Photoshop 2023\Photoshop.exe");
    let mut exists = vec![false; 12];
    assert_eq!(find_photoshop_path(&paths, &exists), None);
    exists[4] = true;
    exists[9] = true;
    assert_eq!(find_photoshop_path(&paths, &exists), Some(paths[4]));
    assert_eq!(find_photoshop_path(&paths, &vec![false, true]), Some(paths[1]));
    assert_eq!(find_photoshop_path(&paths, &Vec::new()), None);
}

#[test]
fn progress_reports_are_parsed() {
    assert_eq!(parse_progress(b"3/10"), Some((3, 10)));
    assert_eq!(parse_progress(b"0/0"), Some((0, 0)));
    assert_eq!(parse_progress(b"+3/+10"), Some((3, 10)));
    assert_eq!(parse_progress(b"007/010"), Some((7, 10)));
    assert_eq!(
        parse_progress(b"18446744073709551615/1"),
        Some((u64::MAX, 1))
    );
}

#[test]
fn malformed_progress_reports_are_not_parsed() {
    assert_eq!(parse_progress(b""), None);
    assert_eq!(parse_progress(b"3"), None);
    assert_eq!(parse_progress(b"/"), None);
    assert_eq!(parse_progress(b"3/"), None);
    assert_eq!(parse_progress(b"/10"), None);
    assert_eq!(parse_progress(b"3/10/2"), None);
    assert_eq!(parse_progress(b"3 /10"), None);
    assert_eq!(parse_progress(b"-3/10"), None);
    assert_eq!(parse_progress(b"+/10"), None);
    assert_eq!(parse_progress(b"a/b"), None);
    assert_eq!(parse_progress(b"18446744073709551616/1"), None);
    assert_eq!(parse_progress(b"1/99999999999999999999"), None);
}

#[test]
fn parsing_agrees_with_the_standard_parser() {
    for text in ["0", "1", "+1", "-1", "", "+", "12a", "00012", "18446744073709551615", "18446744073709551616", "٣"] {
        let report = format!("{}/7", text);
        let expected = text.parse::<u64>().ok().map(|n| (n, 7));
        assert_eq!(parse_progress(report.as_bytes()), expected, "for {:?}", text);
    }
}

#[test]
fn complete_results_are_recognised() {
    assert!(results_ready("{\"results\": []}"));
    assert!(results_ready("  \n{ \"results\": [] }\n"));
    assert!(!results_ready("{\"result\": []}"));
    assert!(!results_ready("[\"results\"]"));
    assert!(!results_ready("results {"));
    assert!(!results_ready(""));
    assert!(!results_ready("   "));
    assert!(results_ready("{results"));
}

#[test]
fn wait_remembers_the_last_report() {
    let mut state = PollState::new();
    assert_eq!(state.last_progress(), "");
    assert_eq!(state.polls_since_progress(), 0);
    state.observe(None, None);
    state.observe(None, None);
    assert_eq!(state.polls_since_progress(), 2);
    state.observe(None, Some(" 1/4\n"));
    assert_eq!(state.last_progress(), "1/4");
    assert_eq!(state.polls_since_progress(), 1);
    state.observe(None, Some("1/4"));
    assert_eq!(state.polls_since_progress(), 2);
    state.observe(Some("{\"results\": 1}"), Some("2/4"));
    assert_eq!(state.last_progress(), "1/4");
    assert_eq!(state.polls_since_progress(), 2);
}

#[test]
fn results_end_the_wait() {
    let mut state = PollState::new();
    assert_eq!(state.observe(Some("{\"results\": []}"), Some("1/2")), PollDecision::Ready);
}

#[test]
fn silence_times_out_after_the_initial_timeout() {
    assert_eq!(INITIAL_TIMEOUT_POLLS, 1200);
    let mut state = PollState::new();
    for poll in 1..1200u64 {
        let decision = state.observe(None, None);
        assert_eq!(decision, PollDecision::Wait { remind: poll % 60 == 0 }, "poll {}", poll);
    }
    assert_eq!(state.observe(None, None), PollDecision::TimedOut { started: false });
}

#[test]
fn incomplete_results_do_not_end_the_wait() {
    let mut state = PollState::new();
    assert_eq!(state.observe(Some("{\"res"), None), PollDecision::Wait { remind: false });
}

#[test]
fn work_in_progress_never_times_out() {
    let mut state = PollState::new();
    assert_eq!(state.observe(None, Some("1/3\n")), PollDecision::Wait { remind: false });
    for _ in 0..5000 {
        assert!(matches!(state.observe(None, Some("1/3\n")), PollDecision::Wait { .. }));
    }
}

#[test]
fn finished_work_times_out_after_the_final_timeout() {
    assert_eq!(FINAL_TIMEOUT_POLLS, 240);
    let mut state = PollState::new();
    assert_eq!(state.observe(None, Some("2/3")), PollDecision::Wait { remind: false });
    assert_eq!(state.observe(None, Some(" 3/3 ")), PollDecision::Wait { remind: false });
    for poll in 2..240u64 {
        let decision = state.observe(None, Some("3/3"));
        assert_eq!(decision, PollDecision::Wait { remind: poll % 60 == 0 }, "poll {}", poll);
    }
    assert_eq!(state.observe(None, Some("3/3")), PollDecision::TimedOut { started: true });
}

#[test]
fn new_progress_restarts_the_count() {
    let mut state = PollState::new();
    for _ in 0..1199 {
        state.observe(None, None);
    }
    assert_eq!(state.observe(None, Some("1/2")), PollDecision::Wait { remind: false });
    for poll in 2..=60u64 {
        assert_eq!(state.observe(None, Some("1/2")), PollDecision::Wait { remind: poll == 60 });
    }
}

#[test]
fn empty_total_is_never_finished() {
    let mut state = PollState::new();
    state.observe(None, Some("0/0"));
    for _ in 0..500 {
        assert!(matches!(state.observe(None, None), PollDecision::Wait { .. }));
    }
}

#[test]
fn unparsable_progress_keeps_what_was_known() {
    let mut state = PollState::new();
    state.observe(None, Some("3/3"));
    state.observe(None, Some("finishing"));
    for _ in 0..238 {
        assert!(matches!(state.observe(None, Some("finishing")), PollDecision::Wait { .. }));
    }
    assert_eq!(state.observe(None, None), PollDecision::TimedOut { started: true });
}

#[test]
fn blank_progress_counts_as_none() {
    let mut state = PollState::new();
    for _ in 0..1199 {
        assert!(matches!(state.observe(None, Some("  \n")), PollDecision::Wait { .. }));
    }
    assert_eq!(state.observe(None, Some("")), PollDecision::TimedOut { started: false });
}
