use core::sync::atomic::AtomicBool;

use obscura::auth::{check_status, login_url, AuthError};
use obscura::binary::{BinaryInfo, ExportEntry, SectionInfo};
use obscura::events::PipelineEvent;
use obscura::host::{AppState, AuthMsg, ObscuraState, LOG_CAPACITY};
use obscura::paths::{enc_path, map_path, output_path};
use obscura::steps::{ObfuscateFunctionsStep, ObfuscateOutcome};
use obscura::symbols::{dec_u64, gen_name, plan_symbols};

#[test]
fn decimal_rendering_is_exact() {
    assert_eq!(dec_u64(0), "0");
    assert_eq!(dec_u64(7), "7");
    assert_eq!(dec_u64(10), "10");
    assert_eq!(dec_u64(409), "409");
    assert_eq!(dec_u64(18446744073709551615), "18446744073709551615");
}

#[test]
fn generated_names_are_zero_padded_and_distinct() {
    assert_eq!(gen_name(1), "f_0001");
    assert_eq!(gen_name(42), "f_0042");
    assert_eq!(gen_name(999), "f_0999");
    assert_eq!(gen_name(1000), "f_1000");
    assert_eq!(gen_name(12345), "f_12345");
    let names: Vec<String> = (1..=200).map(gen_name).collect();
    for i in 0..names.len() {
        for j in 0..names.len() {
            if i != j {
                assert_ne!(names[i], names[j]);
            }
        }
    }
}

#[test]
fn export_names_take_priority_with_placeholders() {
    let info = BinaryInfo::Structured {
        machine: 0x14c,
        sections: vec![SectionInfo { raw_offset: 4, raw_size: 4 }],
        exports: vec![
            ExportEntry { name: Some("alpha".to_string()) },
            ExportEntry { name: None },
            ExportEntry { name: Some("beta".to_string()) },
        ],
    };
    assert_eq!(plan_symbols(&info), vec!["alpha", "export_1", "beta"]);
}

#[test]
fn three_sections_without_exports_yield_five_heuristic_names() {
    let info = BinaryInfo::Structured {
        machine: 0x14c,
        sections: vec![
            SectionInfo { raw_offset: 4, raw_size: 4 },
            SectionInfo { raw_offset: 8, raw_size: 4 },
            SectionInfo { raw_offset: 12, raw_size: 4 },
        ],
        exports: vec![],
    };
    let names = plan_symbols(&info);
    assert_eq!(
        names,
        vec!["func_approx_1", "func_approx_2", "func_approx_3", "func_approx_4", "func_approx_5"]
    );
    // and the mapping stage assigns f_0001 .. f_0005 in order
    let flag = AtomicBool::new(false);
    let (_events, outcome) = ObfuscateFunctionsStep::run(&info, &flag, 0, 1000);
    match outcome {
        ObfuscateOutcome::Mapped { entries, rendered, .. } => {
            assert_eq!(entries.len(), 5);
            for (i, e) in entries.iter().enumerate() {
                assert_eq!(e.original, format!("func_approx_{}", i + 1));
                assert_eq!(e.generated, format!("f_{:04}", i + 1));
            }
            let expected: Vec<String> =
                (1..=5).map(|i| format!("func_approx_{} => f_{:04}", i, i)).collect();
            assert_eq!(rendered, expected.join("\n"));
        },
        ObfuscateOutcome::Interrupted => panic!("the stage was not cancelled"),
    }
}

#[test]
fn mapping_stage_honors_cancellation() {
    let flag = AtomicBool::new(true);
    let (_events, outcome) = ObfuscateFunctionsStep::run(&BinaryInfo::Unrecognized, &flag, 0, 1000);
    assert!(matches!(outcome, ObfuscateOutcome::Interrupted));
}

#[test]
fn unrecognized_container_simulates_eight_names() {
    let names = plan_symbols(&BinaryInfo::Unrecognized);
    assert_eq!(names.len(), 8);
    for (i, n) in names.iter().enumerate() {
        assert_eq!(n, &format!("sim_func_{}", i + 1));
    }
}

#[test]
fn derived_paths_follow_the_input() {
    assert_eq!(enc_path("work/app.exe"), "work/app.exe.enc");
    assert_eq!(map_path("work/app.exe"), "work/app.exe.obf-map");
    assert_eq!(output_path("work/app.exe"), "work/app-protected.exe");
    assert_eq!(output_path("notes.txt"), "notes.txt.obscura-protected");
    assert_eq!(output_path("exe"), "exe.obscura-protected");
    assert_eq!(output_path(""), ".obscura-protected");
}

#[test]
fn login_url_trims_trailing_slashes() {
    assert_eq!(login_url("https://api.example.com"), "https://api.example.com/auth/login");
    assert_eq!(login_url("https://api.example.com///"), "https://api.example.com/auth/login");
    assert_eq!(login_url(""), "/auth/login");
}

#[test]
fn status_codes_outside_the_success_class_are_errors() {
    assert!(check_status(200, String::new()).is_ok());
    assert!(check_status(299, String::new()).is_ok());
    match check_status(404, "not found".to_string()) {
        Err(AuthError::Status(code, body)) => {
            assert_eq!(code, 404);
            assert_eq!(body, "not found");
        },
        _ => panic!("a 404 must be a status error"),
    }
    match check_status(500, "boom".to_string()) {
        Err(AuthError::Status(code, _)) => assert_eq!(code, 500),
        _ => panic!("a 500 must be a status error"),
    }
}

#[test]
fn log_buffer_keeps_only_the_newest_entries() {
    let mut s = ObscuraState::new();
    for i in 0..(LOG_CAPACITY + 5) {
        s.push_log(format!("line {}", i), i as u64);
    }
    assert_eq!(s.logs.len(), LOG_CAPACITY);
    assert_eq!(s.logs[0], "[5] line 5");
    assert_eq!(s.logs.last().unwrap(), &format!("[{}] line {}", LOG_CAPACITY + 4, LOG_CAPACITY + 4));
}

#[test]
fn pipeline_events_drive_the_displayed_state() {
    let mut s = ObscuraState::new();
    s.processing = true;
    s.apply_pipeline_event(PipelineEvent::Log("working".to_string()), 10);
    assert!(s.processing);
    s.apply_pipeline_event(PipelineEvent::Progress(350), 11);
    assert_eq!(s.progress_milli, 350);
    s.apply_pipeline_event(PipelineEvent::Progress(5000), 12);
    assert_eq!(s.progress_milli, 1000);
    s.apply_pipeline_event(PipelineEvent::Done("out.bin".to_string()), 13);
    assert!(!s.processing);
    assert_eq!(s.progress_milli, 1000);
    assert_eq!(s.last_output.as_deref(), Some("out.bin"));

    let mut t = ObscuraState::new();
    t.processing = true;
    t.apply_pipeline_event(PipelineEvent::Cancelled, 14);
    assert!(!t.processing);

    let mut u = ObscuraState::new();
    u.processing = true;
    u.apply_pipeline_event(PipelineEvent::Error("parse failed".to_string()), 15);
    assert!(!u.processing);
}

#[test]
fn second_start_request_is_ignored() {
    let mut s = ObscuraState::new();
    assert!(s.begin_processing(1));
    assert!(s.processing);
    assert!(!s.begin_processing(2));
    assert!(s.processing);
}

#[test]
fn blank_credentials_are_rejected() {
    let mut s = ObscuraState::new();
    s.email = "  \t ".to_string();
    s.password = "secret".to_string();
    assert!(!s.login(1));
    assert!(matches!(s.state, AppState::Login));
    s.email = "user@example.com".to_string();
    assert!(s.login(2));
    assert!(matches!(s.state, AppState::Dashboard));
    s.logout(3);
    assert!(matches!(s.state, AppState::Login));
    assert!(s.email.is_empty());
    assert!(s.password.is_empty());
}

#[test]
fn auth_messages_drive_the_login_flow() {
    let mut s = ObscuraState::new();
    s.auth_processing = true;
    s.apply_auth_msg(AuthMsg::Error("HTTP 401: bad credentials".to_string()), 5);
    assert!(!s.auth_processing);
    assert!(matches!(s.state, AppState::Login));
    assert_eq!(s.last_auth_error.as_deref(), Some("HTTP 401: bad credentials"));

    s.auth_processing = true;
    s.apply_auth_msg(AuthMsg::Success("token-123".to_string()), 6);
    assert!(!s.auth_processing);
    assert!(matches!(s.state, AppState::Dashboard));
    assert_eq!(s.token.as_deref(), Some("token-123"));
}
