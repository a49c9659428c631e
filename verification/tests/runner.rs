use lnrentd::runner::{
    after_exit, after_read, hook_env_from, spawn_retry, Cleanup, HookExit, HookProcessGroup,
    HookRead, OutputReader, EAGAIN, ETXTBSY, OUTPUT_CAP,
};

#[test]
fn hook_env_forwards_only_base_and_declared_vars() {
    let daemon_env = |k: &str| -> Option<String> {
        match k {
            "PATH" => Some("/usr/bin".into()),
            "HOME" => Some("/root".into()),
            "LNRENT_MNEMONIC" => Some("twelve seed words".into()),
            "DO_TOKEN" => Some("dop_v1_secret".into()),
            "UNDECLARED_X" => Some("nope".into()),
            _ => None,
        }
    };
    let env = hook_env_from(daemon_env, &["DO_TOKEN".to_string()]);
    let has = |k: &str| env.iter().any(|(name, _)| name == k);

    assert!(
        has("PATH") && has("HOME"),
        "base allowlist forwarded when present"
    );
    assert!(has("DO_TOKEN"), "a recipe-declared var passes through");
    assert!(!has("LNRENT_MNEMONIC"), "the seed is NEVER forwarded");
    assert!(
        !has("UNDECLARED_X"),
        "an undeclared daemon var is not forwarded"
    );
    assert!(!has("LANG"), "an unset base var is skipped");
}

#[test]
fn hook_env_keeps_order_and_values() {
    let env = hook_env_from(|k: &str| Some(format!("<{k}>")), &["B".to_string(), "A".to_string()]);
    let names: Vec<&str> = env.iter().map(|(n, _)| n.as_str()).collect();
    assert_eq!(
        names,
        vec!["PATH", "HOME", "LANG", "LC_ALL", "TZ", "TMPDIR", "B", "A"]
    );
    assert_eq!(env[6].1, "<B>");
}

#[test]
fn only_passing_spawn_failures_are_retried() {
    let mut delays = Vec::new();
    for attempt in 0..7u32 {
        delays.push(spawn_retry(attempt, Some(ETXTBSY)));
    }
    assert_eq!(
        delays,
        vec![Some(10), Some(20), Some(30), Some(40), Some(50), None, None]
    );
    assert_eq!(spawn_retry(0, Some(EAGAIN)), Some(10));
    assert_eq!(spawn_retry(0, Some(2)), None, "a missing hook fails at once");
    assert_eq!(spawn_retry(0, None), None);
}

#[test]
fn process_group_is_let_be_once_disarmed() {
    let mut g = HookProcessGroup::new(Some(42));
    assert_eq!(g.pgid, Some(42));
    g.disarm();
    assert_eq!(g.pgid, None);
}

#[test]
fn oversized_stdout_fails_fast_on_cap() {
    let mut r = OutputReader::new(OUTPUT_CAP);
    let chunk = vec![b'x'; 8192];
    for _ in 0..128 {
        assert!(r.push(&chunk).is_ok());
    }
    let e = r.push(b"x").unwrap_err();
    assert_eq!(e, "output exceeded the 1048576-byte cap");
    assert_eq!(r.into_bytes().len(), OUTPUT_CAP);
    let end = after_read("/h", 1000, HookRead::Failed(e)).unwrap_err();
    assert_eq!(end.cleanup, Cleanup::Reap);
    assert_eq!(
        end.result.unwrap_err().message,
        "hook /h: output exceeded the 1048576-byte cap"
    );
}

#[test]
fn hook_returns_stdout_json_and_sees_stdin() {
    let read = HookRead::Closed {
        stdout: b"{\"ok\":true}\n".to_vec(),
        stderr: Vec::new(),
    };
    let (out, err) = after_read("/h", 1000, read).unwrap();
    let end = after_exit("/h", HookExit::Exited { success: true, code: Some(0) }, &out, &err);
    assert_eq!(end.cleanup, Cleanup::Leave);
    let json = end.result.unwrap().stdout_json;
    assert_eq!(json.get("ok").and_then(|v| v.as_bool()), Some(true));
}

#[test]
fn timeout_kills_and_fails() {
    let end = after_read("/hooks/slow", 200, HookRead::TimedOut).unwrap_err();
    assert_eq!(end.cleanup, Cleanup::Reap);
    assert_eq!(
        end.result.unwrap_err().message,
        "hook /hooks/slow timed out after 200ms"
    );
    let end = after_read("/hooks/slow", 120_000, HookRead::TimedOut).unwrap_err();
    assert_eq!(
        end.result.unwrap_err().message,
        "hook /hooks/slow timed out after 120s"
    );
}

#[test]
fn failed_clean_exit_group_kills_forked_descendant() {
    let exited = HookExit::Exited { success: false, code: Some(1) };
    let end = after_exit("/h", exited, &b"{}".to_vec(), &b"no space".to_vec());
    assert_eq!(end.cleanup, Cleanup::KillGroup);
    let m = end.result.unwrap_err().message;
    assert_eq!(m, "hook /h failed (exit Some(1)): no space");

    let killed = HookExit::Exited { success: false, code: None };
    let end = after_exit("/h", killed, &Vec::new(), &vec![0xff]);
    assert_eq!(
        end.result.unwrap_err().message,
        "hook /h failed (exit None): \u{fffd}"
    );
}

#[test]
fn non_json_stdout_is_failure() {
    let ok = HookExit::Exited { success: true, code: Some(0) };
    let end = after_exit("/h", ok, &b"nope\n".to_vec(), &Vec::new());
    assert_eq!(end.cleanup, Cleanup::KillGroup);
    let m = end.result.unwrap_err().message;
    assert!(m.starts_with("hook /h stdout is not JSON: "), "got: {m}");
}

#[test]
fn hook_that_does_not_exit_is_reaped() {
    let end = after_exit("/h", HookExit::TimedOut, &b"{}".to_vec(), &Vec::new());
    assert_eq!(end.cleanup, Cleanup::Reap);
    assert_eq!(
        end.result.unwrap_err().message,
        "hook /h did not exit after closing its output"
    );
    let end = after_exit("/h", HookExit::Failed("ECHILD".into()), &b"{}".to_vec(), &Vec::new());
    assert_eq!(end.cleanup, Cleanup::KillGroup);
    let f = end.result.unwrap_err();
    assert_eq!((f.message.as_str(), f.cause.as_deref()), ("waiting on hook", Some("ECHILD")));
}
