//! The command line, the environment and the server in the background.

use mac_rdp_server::cli::{parse_cli_args, CliConfig, CliEnv, Command};
use mac_rdp_server::config::{get_compression_mode, GraphicsEnv};
use mac_rdp_server::daemon::{parse_pid, parse_pids, quit_step, QuitAction, QuitState};
use mac_rdp_server::text::{parse, split_once, to_decimal, to_lowercase, trim};
use mac_rdp_server::tiles::CompressionMode;

fn no_env() -> CliEnv {
    CliEnv {
        user: None,
        password: None,
        domain: None,
        port: None,
        host: None,
        color: None,
        bits: None,
        tile: None,
        fps: None,
        res: None,
        mode: None,
        no_log: None,
    }
}

fn cli(args: &[&str]) -> CliConfig {
    cli_in(&no_env(), args)
}

fn cli_in(env: &CliEnv, args: &[&str]) -> CliConfig {
    let mut all = vec!["mac-rdp-server".to_string()];
    all.extend(args.iter().map(|a| a.to_string()));
    parse_cli_args(env, &all)
}

fn no_graphics() -> GraphicsEnv {
    GraphicsEnv { mode: None, color: None, bits: None, mask: None, tile: None, tile_w: None, tile_h: None }
}

fn mask_of(color: &str) -> u8 {
    get_compression_mode(&GraphicsEnv { color: Some(color.to_string()), ..no_graphics() }).mask
}

fn tile_of(tile: &str) -> (usize, usize) {
    let mode = get_compression_mode(&GraphicsEnv { tile: Some(tile.to_string()), ..no_graphics() });
    (mode.tile_w, mode.tile_h)
}

#[test]
fn defaults_of_the_command_line() {
    let c = cli(&[]);
    assert_eq!(c.user, "dev");
    assert_eq!(c.password, "12345678");
    assert_eq!(c.domain, None);
    assert_eq!(c.port, 3389);
    assert_eq!(c.host, "0.0.0.0");
    assert_eq!(c.color, "6bit");
    assert_eq!(c.tile, "320x24");
    assert_eq!(c.fps, 60);
    assert_eq!(c.res, "native");
    assert_eq!(c.mode, "speed");
    assert!(!c.no_log && !c.verbose && !c.daemon && !c.quit && !c.status && !c.help);
    assert_eq!(c.command(), Command::Serve);
}

#[test]
fn options_and_their_long_names() {
    let c = cli(&["-u", "bob", "-p", "pw", "-D", " CORP ", "-P", "3390", "-H", "127.0.0.1", "-c", "4bit"]);
    assert_eq!((c.user.as_str(), c.password.as_str()), ("bob", "pw"));
    assert_eq!(c.domain.as_deref(), Some("CORP"));
    assert_eq!((c.port, c.host.as_str(), c.color.as_str()), (3390, "127.0.0.1", "4bit"));
    let c = cli(&["--tile", "320x32", "--fps", "30", "--resolution", "720p", "--mode", "quality", "--debug"]);
    assert_eq!((c.tile.as_str(), c.fps, c.res.as_str(), c.mode.as_str()), ("320x32", 30, "720p", "quality"));
    assert!(c.verbose);
    let c = cli(&["--username", "a", "--pass", "b", "--bits", "c", "-nl"]);
    assert_eq!((c.user.as_str(), c.password.as_str(), c.color.as_str()), ("a", "b", "c"));
    assert!(c.no_log);
}

#[test]
fn odd_arguments() {
    // A number that is none is passed over, and so is a value that is missing.
    let c = cli(&["-P", "70000", "-f", "fast", "unknown", "-u"]);
    assert_eq!((c.port, c.fps, c.user.as_str()), (3389, 60, "dev"));
    // What follows an option is its value, whatever it looks like.
    let c = cli(&["-u", "-p", "-q"]);
    assert_eq!(c.user, "-p");
    assert!(c.quit);
    assert_eq!(cli(&["-D", "   "]).domain, None);
    assert_eq!(cli(&["-P", "+8080"]).port, 8080);
}

#[test]
fn of_several_requests_one_counts() {
    assert_eq!(cli(&["-d", "-q", "-s", "-h"]).command(), Command::Help);
    assert_eq!(cli(&["-d", "-q", "-s"]).command(), Command::Quit);
    assert_eq!(cli(&["start", "status"]).command(), Command::Daemon);
    assert_eq!(cli(&["status"]).command(), Command::Status);
    assert_eq!(cli(&["stop"]).command(), Command::Quit);
    assert_eq!(cli(&["help"]).command(), Command::Help);
}

#[test]
fn the_environment_comes_before_the_defaults() {
    let env = CliEnv {
        user: Some("eve".to_string()),
        domain: Some("  ".to_string()),
        port: Some("5000".to_string()),
        bits: Some("5bit".to_string()),
        no_log: Some("TRUE".to_string()),
        ..no_env()
    };
    let c = cli_in(&env, &[]);
    assert_eq!((c.user.as_str(), c.port, c.color.as_str()), ("eve", 5000, "5bit"));
    assert_eq!(c.domain, None);
    assert!(c.no_log);
    assert_eq!(cli_in(&env, &["-u", "adam"]).user, "adam");
}

#[test]
fn the_server_in_the_background_runs_the_same() {
    for args in [
        vec!["-d"],
        vec!["-u", "-u", "-p", "stop", "-D", "CORP", "-P", "65535", "-nl", "-v", "-d"],
        vec!["-H", "", "-c", "0xF0", "-t", "", "-f", "0", "-r", "help", "-m", "-q"],
    ] {
        let asked = cli(&args);
        let worker_args = asked.worker_args();
        let words: Vec<&str> = worker_args.iter().map(|a| a.as_str()).collect();
        assert_eq!(words[0], "--worker");
        let got = cli(&words);
        assert_eq!(got.user, asked.user);
        assert_eq!(got.password, asked.password);
        assert_eq!(got.domain, asked.domain);
        assert_eq!((got.port, got.fps, got.no_log), (asked.port, asked.fps, asked.no_log));
        assert_eq!((got.host, got.color, got.tile), (asked.host, asked.color, asked.tile));
        assert_eq!((got.res, got.mode), (asked.res, asked.mode));
        assert!(!got.daemon && !got.quit && !got.help && !got.status && !got.verbose);
    }
}

#[test]
fn what_is_logged() {
    assert_eq!(cli(&["-nl", "-v"]).log_filter(), "off");
    assert_eq!(cli(&["-v"]).log_filter(), "mac_rdp_server=debug,ironrdp_server=info,ironrdp=warn");
    assert_eq!(cli(&[]).log_filter(), "mac_rdp_server=info,ironrdp_server=info,ironrdp=warn");
}

#[test]
fn the_usual_server_has_six_bits_and_small_tiles() {
    let c = cli(&[]);
    assert_eq!(
        get_compression_mode(&c.graphics_env()),
        CompressionMode { mask: 0xFC, tile_w: 320, tile_h: 24 }
    );
    let display = c.display_env();
    assert_eq!((display.fps.as_deref(), display.res.as_deref()), (Some("60"), Some("native")));
}

#[test]
fn masks_by_their_names() {
    assert_eq!(mask_of("4bit"), 0xF0);
    assert_eq!(mask_of("4"), 0xF0);
    assert_eq!(mask_of(" 5BIT "), 0xF8);
    assert_eq!(mask_of("6"), 0xFC);
    assert_eq!(mask_of("7bit"), 0xFE);
    assert_eq!(mask_of("8"), 0xFF);
    assert_eq!(mask_of("Lossless"), 0xFF);
    assert_eq!(mask_of("max"), 0xFF);
    assert_eq!(mask_of("3bit"), 0xE0);
    assert_eq!(mask_of("0xC0"), 0xC0);
    assert_eq!(mask_of("0X7f"), 0x7F);
    assert_eq!(mask_of("c0"), 0xC0);
    assert_eq!(mask_of("0x100"), 0xFF);
    assert_eq!(mask_of("nonsense"), 0xFF);
    let env = GraphicsEnv { bits: Some("4".to_string()), mask: Some("5".to_string()), ..no_graphics() };
    assert_eq!(get_compression_mode(&env).mask, 0xF0);
    let env = GraphicsEnv { mask: Some("5".to_string()), mode: Some("quality".to_string()), ..no_graphics() };
    assert_eq!(get_compression_mode(&env).mask, 0xF8);
    assert_eq!(get_compression_mode(&no_graphics()).mask, 0xFF);
}

#[test]
fn tiles_by_their_size() {
    assert_eq!(tile_of("320x24"), (320, 24));
    assert_eq!(tile_of("240*24"), (240, 24));
    assert_eq!(tile_of("241X3"), (240, 4));
    assert_eq!(tile_of("5,100"), (8, 100));
    assert_eq!(tile_of("ax7"), (320, 7));
    assert_eq!(tile_of("1x2x3"), (320, 32));
    assert_eq!(tile_of("320"), (320, 32));
    let env = GraphicsEnv { tile_w: Some("99".to_string()), tile_h: Some(" 9".to_string()), ..no_graphics() };
    let mode = get_compression_mode(&env);
    assert_eq!((mode.tile_w, mode.tile_h), (96, 32));
}

#[test]
fn processes_are_read_from_text() {
    assert_eq!(parse_pid(" 1234\n"), Some(1234));
    assert_eq!(parse_pid("4294967296"), None);
    assert_eq!(parse_pid(""), None);
    assert_eq!(parse_pids("12\r\n 34 \nx\n\n56"), vec![12, 34, 56]);
    assert!(parse_pids("").is_empty());
}

#[test]
fn a_process_is_asked_before_it_is_killed() {
    // One that ends at once.
    let (state, action) = quit_step(QuitState::Start, true);
    assert_eq!(action, QuitAction::Terminate);
    let (state, action) = quit_step(state, false);
    assert_eq!(action, QuitAction::Look);
    assert_eq!(quit_step(state, false), (QuitState::Done { stopped: true }, QuitAction::Rest));

    // One that never does.
    let (mut state, _) = quit_step(QuitState::Start, true);
    let mut looks = 0;
    loop {
        looks += 1;
        let (next, action) = quit_step(state, true);
        state = next;
        if action == QuitAction::Look {
            break;
        }
        assert_eq!(action, QuitAction::Wait);
    }
    assert_eq!(looks, 20);
    assert_eq!(quit_step(state, true), (QuitState::Done { stopped: true }, QuitAction::Kill));

    // One that is not there.
    assert_eq!(quit_step(QuitState::Start, false), (QuitState::Done { stopped: false }, QuitAction::Rest));
}

#[test]
fn numbers_and_their_digits() {
    for n in [0u64, 7, 10, 3389, 65535, u32::MAX as u64] {
        let digits = to_decimal(n);
        assert_eq!(digits, n.to_string());
        assert_eq!(parse(&digits, 10, u64::MAX), Some(n));
    }
    assert_eq!(parse("256", 10, 255), None);
    assert_eq!(parse("+", 10, 255), None);
    assert_eq!(parse("-1", 10, 255), None);
    assert_eq!(parse("000000000000000000000000000255", 10, 255), Some(255));
    assert_eq!(parse("fF", 16, 255), Some(255));
}

#[test]
fn text_is_trimmed_split_and_made_small() {
    assert_eq!(trim(" \t\u{00A0}a b\u{3000}\n"), "a b");
    assert_eq!(trim("   "), "");
    assert_eq!(split_once("a@b@c", '@'), Some(("a".to_string(), "b@c".to_string())));
    assert_eq!(split_once("abc", '@'), None);
    assert_eq!(to_lowercase("ÄbC-9Z"), "Äbc-9z");
}
