use ptyproc::cmdline::make_command_line;
use ptyproc::error::Error;

fn w(s: &str) -> Vec<u16> {
    s.encode_utf16().collect()
}

/// The native argument-parsing algorithm: tokens split on unquoted spaces
/// and tabs; a run of N backslashes before a quote yields N/2 backslashes,
/// plus a literal quote when N is odd, else the quote toggles quoting;
/// backslashes not before a quote are literal.
fn parse_cmd(cmd: &[u16]) -> Vec<Vec<u16>> {
    const SP: u16 = 0x20;
    const HT: u16 = 0x09;
    const QU: u16 = 0x22;
    const BS: u16 = 0x5c;
    let mut args: Vec<Vec<u16>> = Vec::new();
    let mut cur: Vec<u16> = Vec::new();
    let mut in_token = false;
    let mut in_quotes = false;
    let mut i = 0;
    while i < cmd.len() {
        let c = cmd[i];
        if !in_token && !in_quotes && (c == SP || c == HT) {
            i += 1;
            continue;
        }
        if c == BS {
            let mut n = 0;
            while i < cmd.len() && cmd[i] == BS {
                n += 1;
                i += 1;
            }
            if i < cmd.len() && cmd[i] == QU {
                for _ in 0..n / 2 {
                    cur.push(BS);
                }
                if n % 2 == 1 {
                    cur.push(QU);
                    i += 1;
                }
            } else {
                for _ in 0..n {
                    cur.push(BS);
                }
            }
            in_token = true;
            continue;
        }
        if c == QU {
            in_token = true;
            in_quotes = !in_quotes;
            i += 1;
            continue;
        }
        if !in_quotes && (c == SP || c == HT) {
            args.push(cur);
            cur = Vec::new();
            in_token = false;
            i += 1;
            continue;
        }
        cur.push(c);
        in_token = true;
        i += 1;
    }
    if in_token || in_quotes {
        args.push(cur);
    }
    args
}

fn round_trip(args: &[&str]) {
    let prog = w("prog");
    let wargs: Vec<Vec<u16>> = args.iter().map(|a| w(a)).collect();
    let encoded = make_command_line(&prog, &wargs).unwrap();
    let decoded = parse_cmd(&encoded);
    assert_eq!(decoded.len(), 1 + wargs.len());
    assert_eq!(decoded[0], prog);
    for (i, a) in wargs.iter().enumerate() {
        assert_eq!(&decoded[i + 1], a, "argument {} did not round-trip", i);
    }
}

#[test]
fn program_always_quoted() {
    let r = make_command_line(&w("prog"), &[]).unwrap();
    assert_eq!(r, w("\"prog\""));
}

#[test]
fn arg_with_space_is_quoted() {
    let r = make_command_line(&w("prog"), &[w("a b")]).unwrap();
    assert_eq!(r, w("\"prog\" \"a b\""));
}

#[test]
fn arg_with_tab_is_quoted() {
    let r = make_command_line(&w("prog"), &[w("a\tb")]).unwrap();
    assert_eq!(r, w("\"prog\" \"a\tb\""));
}

#[test]
fn empty_arg_is_quoted() {
    let r = make_command_line(&w("prog"), &[w("")]).unwrap();
    assert_eq!(r, w("\"prog\" \"\""));
}

#[test]
fn plain_arg_is_not_quoted() {
    let r = make_command_line(&w("prog"), &[w("abc")]).unwrap();
    assert_eq!(r, w("\"prog\" abc"));
}

#[test]
fn internal_quote_escaped_with_odd_backslashes() {
    let r = make_command_line(&w("prog"), &[w("a\"b")]).unwrap();
    assert_eq!(r, w("\"prog\" a\\\"b"));
}

#[test]
fn backslashes_before_quote_are_doubled_plus_one() {
    let r = make_command_line(&w("prog"), &[w("a\\\"b")]).unwrap();
    assert_eq!(r, w("\"prog\" a\\\\\\\"b"));
}

#[test]
fn trailing_backslashes_unquoted_pass_through() {
    let r = make_command_line(&w("prog"), &[w("c:\\path\\")]).unwrap();
    assert_eq!(r, w("\"prog\" c:\\path\\"));
}

#[test]
fn trailing_backslash_in_quoted_arg_is_doubled() {
    let r = make_command_line(&w("prog"), &[w("a b\\")]).unwrap();
    assert_eq!(r, w("\"prog\" \"a b\\\\\""));
}

#[test]
fn round_trip_empty_arg() {
    round_trip(&[""]);
}

#[test]
fn round_trip_spaced_arg() {
    round_trip(&["a b"]);
}

#[test]
fn round_trip_quoted_arg() {
    round_trip(&["a\"b"]);
}

#[test]
fn round_trip_trailing_backslash() {
    round_trip(&["c:\\path\\"]);
}

#[test]
fn round_trip_double_backslash() {
    round_trip(&["a\\\\b"]);
}

#[test]
fn round_trip_mixed_args() {
    round_trip(&["", "a b", "a\"b", "c:\\path\\", "a\\\\b", "plain"]);
}

#[test]
fn nul_in_program_is_invalid_input() {
    let r = make_command_line(&w("pr\0og"), &[]);
    assert_eq!(r, Err(Error::InvalidInput));
}

#[test]
fn nul_in_arg_is_invalid_input() {
    let r = make_command_line(&w("prog"), &[w("ok"), w("a\0b")]);
    assert_eq!(r, Err(Error::InvalidInput));
}
