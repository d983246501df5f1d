//! Whole-session behaviour of the AT interpreter, driven a byte at a time as a
//! real DTE would.

use softmodem::at::parse::{Command, ExtOp, ParseError};
use softmodem::at::registers::{RegError, Registers};
use softmodem::at::result::ResultCode;
use softmodem::at::{parse_line, Action, Identity, Interpreter};

/// Feed a command line and return everything the DCE sent back.
fn send(it: &mut Interpreter, line: &str) -> (String, Vec<Action>) {
    for b in line.bytes() {
        it.feed(b);
    }
    (String::from_utf8(it.take_output()).unwrap(), it.take_actions())
}

/// An interpreter with echo off, so tests read the responses alone.
fn quiet_dce() -> Interpreter {
    let mut it = Interpreter::new();
    it.config.echo = false;
    it
}

#[test]
fn bare_at_acknowledges() {
    let mut it = quiet_dce();
    let (out, actions) = send(&mut it, "AT\r");
    assert_eq!(out, "\r\nOK\r\n");
    assert!(actions.is_empty());
}

#[test]
fn echo_is_on_by_default_and_e0_turns_it_off() {
    let mut it = Interpreter::new();
    let (out, _) = send(&mut it, "ATE0\r");
    // The command line itself is echoed, then the result code follows.
    assert_eq!(out, "ATE0\r\r\nOK\r\n");
    let (out, _) = send(&mut it, "AT\r");
    assert_eq!(out, "\r\nOK\r\n", "echo should now be off");
}

#[test]
fn unrecognised_commands_report_error() {
    let mut it = quiet_dce();
    for line in ["ATJ\r", "ATE7\r", "AT&Z\r", "AT%%%\r"] {
        let (out, _) = send(&mut it, line);
        assert_eq!(out, "\r\nERROR\r\n", "{line} should be rejected");
    }
}

#[test]
fn s_parameter_read_is_three_digits_with_leading_zeroes() {
    // V.250 requires exactly three characters.
    let mut it = quiet_dce();
    assert_eq!(send(&mut it, "ATS7?\r").0, "\r\n050\r\n\r\nOK\r\n");
    assert_eq!(send(&mut it, "ATS0?\r").0, "\r\n000\r\n\r\nOK\r\n");
}

#[test]
fn s_parameters_can_be_set_and_read_back() {
    let mut it = quiet_dce();
    assert_eq!(send(&mut it, "ATS7=90\r").0, "\r\nOK\r\n");
    assert_eq!(send(&mut it, "ATS7?\r").0, "\r\n090\r\n\r\nOK\r\n");
}

#[test]
fn out_of_range_s_parameter_values_are_rejected() {
    let mut it = quiet_dce();
    // S6 is defined as 2 to 10 (V.250).
    assert_eq!(send(&mut it, "ATS6=99\r").0, "\r\nERROR\r\n");
    assert_eq!(send(&mut it, "ATS6?\r").0, "\r\n002\r\n\r\nOK\r\n");
}

#[test]
fn a_missing_s_value_means_zero_and_the_range_decides() {
    let mut it = quiet_dce();
    // S0 permits 0, so "ATS0=" is accepted.
    assert_eq!(send(&mut it, "ATS0=\r").0, "\r\nOK\r\n");
    // S7's minimum is 1, so "ATS7=" is out of range.
    assert_eq!(send(&mut it, "ATS7=\r").0, "\r\nERROR\r\n");
    assert_eq!(
        send(&mut it, "ATS7?\r").0,
        "\r\n050\r\n\r\nOK\r\n",
        "the rejected write must leave S7 alone"
    );
}

#[test]
fn unimplemented_s_parameters_are_rejected() {
    let mut it = quiet_dce();
    assert_eq!(send(&mut it, "ATS99?\r").0, "\r\nERROR\r\n");
}

#[test]
fn v0_switches_to_numeric_result_codes() {
    let mut it = quiet_dce();
    // The response to ATV0 itself already uses the new format.
    assert_eq!(send(&mut it, "ATV0\r").0, "0\r");
    assert_eq!(send(&mut it, "AT\r").0, "0\r");
    assert_eq!(send(&mut it, "ATJ\r").0, "4\r");
    assert_eq!(send(&mut it, "ATS7?\r").0, "050\r\n0\r");
}

#[test]
fn q1_suppresses_result_codes_but_not_information_text() {
    let mut it = quiet_dce();
    assert_eq!(send(&mut it, "ATQ1\r").0, "", "the OK for ATQ1 is itself suppressed");
    assert_eq!(send(&mut it, "AT\r").0, "");
    assert_eq!(
        send(&mut it, "ATS7?\r").0,
        "\r\n050\r\n",
        "V.250 suppresses result codes only"
    );
}

#[test]
fn s3_and_s4_retarget_the_framing_characters() {
    let mut it = quiet_dce();
    // V.250: the line containing S3= is terminated with the OLD value,
    // but the result code uses the NEW one.
    assert_eq!(send(&mut it, "ATS3=30\r").0, "\x1e\nOK\x1e\n");
    // Subsequent lines must now be terminated with the new character.
    assert_eq!(send(&mut it, "AT\x1e").0, "\x1e\nOK\x1e\n");
}

#[test]
fn backspace_edits_the_command_line() {
    // V.250: S5 deletes the preceding character.
    let mut it = quiet_dce();
    let (out, _) = send(&mut it, "ATJ\x08\r");
    assert_eq!(out, "\r\nOK\r\n", "the J should have been deleted");
}

#[test]
fn concatenated_commands_all_take_effect() {
    let mut it = quiet_dce();
    assert_eq!(send(&mut it, "ATE0V1X4S0=2\r").0, "\r\nOK\r\n");
    assert_eq!(it.config.x, 4);
    assert_eq!(send(&mut it, "ATS0?\r").0, "\r\n002\r\n\r\nOK\r\n");
}

#[test]
fn a_failing_command_stops_the_line_and_reports_error() {
    let mut it = quiet_dce();
    // X9 is invalid, so S0=5 after it must not take effect.
    assert_eq!(send(&mut it, "ATX9S0=5\r").0, "\r\nERROR\r\n");
    assert_eq!(send(&mut it, "ATS0?\r").0, "\r\n000\r\n\r\nOK\r\n");
}

#[test]
fn dial_yields_an_action_and_no_ok() {
    let mut it = quiet_dce();
    let (out, actions) = send(&mut it, "ATDT5551234\r");
    assert_eq!(actions, vec![Action::Dial(b"T5551234".to_vec())]);
    assert_eq!(out, "", "the result code comes later, when the call resolves");
}

#[test]
fn answer_ignores_the_rest_of_the_line() {
    // Echo starts on, so if the trailing E0 were
    // executed it would turn echo off; that is what makes this observable.
    let mut it = Interpreter::new();
    assert!(it.config.echo);
    let (_, actions) = send(&mut it, "ATAE0\r");
    assert_eq!(actions, vec![Action::Answer]);
    assert!(it.config.echo, "E0 after A must not have been executed");
}

#[test]
fn hook_and_reset_commands_produce_their_actions() {
    let mut it = quiet_dce();
    assert_eq!(send(&mut it, "ATH0\r").1, vec![Action::HangUp]);
    assert_eq!(send(&mut it, "ATH1\r").1, vec![Action::OffHook]);
    assert_eq!(send(&mut it, "ATO\r").1, vec![Action::ReturnOnline]);
    assert_eq!(send(&mut it, "ATZ\r").1, vec![Action::ResetProfile(0)]);
    assert_eq!(send(&mut it, "AT&F\r").1, vec![Action::FactoryDefaults(0)]);
}

#[test]
fn hangup_and_reset_still_acknowledge_immediately() {
    // V.250: Z completes all of its work before issuing the result code.
    // Only D, A and O defer, because only they leave command state.
    for line in ["ATH0\r", "ATZ\r", "AT&F\r"] {
        // A fresh DCE each time: Z and &F restore E1, so reusing one would
        // start echoing partway through.
        let mut it = quiet_dce();
        assert_eq!(send(&mut it, line).0, "\r\nOK\r\n", "{line}");
    }
}

#[test]
fn reset_restores_echo_because_e1_is_the_factory_default() {
    // E1 is the factory default, so
    // a reset turns echo back on. Software that sends ATZ then assumes echo is
    // still off will see its own commands come back.
    for reset in ["ATZ\r", "AT&F\r"] {
        let mut it = quiet_dce();
        assert!(!it.config.echo);
        send(&mut it, reset);
        assert!(it.config.echo, "{reset} should have restored E1");
        assert_eq!(send(&mut it, "AT\r").0, "AT\r\r\nOK\r\n");
    }
}

#[test]
fn ampersand_f_does_not_swallow_the_rest_of_the_line() {
    // "AT&F&C1&D2" is a common initialisation string; the settings after &F
    // have to take effect.
    let mut it = quiet_dce();
    it.config.dcd = 0;
    it.config.dtr = 0;
    let (out, actions) = send(&mut it, "AT&F&C1&D2\r");
    assert_eq!(out, "\r\nOK\r\n");
    assert_eq!(actions, vec![Action::FactoryDefaults(0)]);
    assert_eq!(it.config.dcd, 1);
    assert_eq!(it.config.dtr, 2);
}

#[test]
fn ampersand_f_restores_defaults_before_later_commands_apply() {
    let mut it = quiet_dce();
    send(&mut it, "ATS7=99\r");
    send(&mut it, "AT&FS7=80\r");
    it.config.echo = false; // &F restored E1; silence it again to read the reply
    assert_eq!(send(&mut it, "ATS7?\r").0, "\r\n080\r\n\r\nOK\r\n");
}

#[test]
fn z_ignores_commands_after_it() {
    // V.250: "commands ... after the Z command ... may be ignored".
    let mut it = quiet_dce();
    send(&mut it, "ATS0=5\r");
    let (_, actions) = send(&mut it, "ATZS0=9\r");
    assert_eq!(actions, vec![Action::ResetProfile(0)]);
    it.config.echo = false; // Z restored E1
    assert_eq!(
        send(&mut it, "ATS0?\r").0,
        "\r\n000\r\n\r\nOK\r\n",
        "Z should have reset S0, and the trailing S0=9 been ignored"
    );
}

#[test]
fn one_line_can_produce_two_actions() {
    // Neither &F nor H terminates the line, so both actions are reported.
    let mut it = quiet_dce();
    let (out, actions) = send(&mut it, "AT&FH0\r");
    assert_eq!(out, "\r\nOK\r\n");
    assert_eq!(actions, vec![Action::FactoryDefaults(0), Action::HangUp]);
}

#[test]
fn a_failed_command_discards_actions_queued_earlier_on_the_line() {
    let mut it = quiet_dce();
    let (out, actions) = send(&mut it, "AT&FX9\r");
    assert_eq!(out, "\r\nERROR\r\n");
    assert!(actions.is_empty(), "the line failed, so nothing should be acted on");
}

#[test]
fn a_slash_repeats_the_previous_line() {
    // No termination character is needed.
    let mut it = quiet_dce();
    send(&mut it, "ATS7=77\r");
    assert_eq!(send(&mut it, "ATS7?\r").0, "\r\n077\r\n\r\nOK\r\n");
    assert_eq!(
        send(&mut it, "A/").0,
        "\r\n077\r\n\r\nOK\r\n",
        "A/ should rerun the S7 query"
    );
}

#[test]
fn a_slash_before_any_command_line_acts_as_an_empty_line() {
    // V.250: "the preceding command line is assumed to have been empty
    // (that results in an OK result code)".
    let mut it = quiet_dce();
    assert_eq!(send(&mut it, "A/").0, "\r\nOK\r\n");
}

#[test]
fn junk_before_the_prefix_is_ignored() {
    let mut it = quiet_dce();
    assert_eq!(send(&mut it, "\r\n\0xyzAT\r").0, "\r\nOK\r\n");
}

#[test]
fn identification_commands_answer() {
    let mut it = quiet_dce();
    assert!(send(&mut it, "ATI0\r").0.contains("SOFTMODEM"));
    assert!(send(&mut it, "AT+GMI\r").0.contains("dialupmodem2"));
    assert!(send(&mut it, "AT+GCAP\r").0.contains("+GCAP:"));
    assert_eq!(send(&mut it, "AT+NOSUCH\r").0, "\r\nERROR\r\n");
}

#[test]
fn windows_dial_up_networking_init_string_is_accepted() {
    // The sequence Windows DUN and most terminal software actually send.
    let mut it = Interpreter::new();
    for line in ["AT&F\r", "ATE0\r", "ATV1\r", "AT&C1\r", "AT&D2\r", "ATS0=0\r", "ATS7=60\r"] {
        let (out, _) = send(&mut it, line);
        assert!(out.ends_with("OK\r\n"), "{line} produced {out:?}");
    }
    assert_eq!(it.config.dcd, 1);
    assert_eq!(it.config.dtr, 2);
    assert!(!it.config.echo);
}

#[test]
fn an_over_long_line_errors_once_terminated() {
    let mut it = quiet_dce();
    let line = format!("AT{}\r", "E0".repeat(300));
    assert_eq!(send(&mut it, &line).0, "\r\nERROR\r\n");
}

#[test]
fn deferred_result_codes_can_be_emitted_later() {
    // The modem reports CONNECT or NO CARRIER once the call resolves.
    let mut it = quiet_dce();
    let (_, actions) = send(&mut it, "ATDT5551234\r");
    assert_eq!(actions.len(), 1);
    it.emit(ResultCode::ConnectText(b"33600/V42BIS".to_vec()));
    assert_eq!(
        String::from_utf8(it.take_output()).unwrap(),
        "\r\nCONNECT 33600/V42BIS\r\n"
    );
}

// -- the capabilities +GCAP advertises --------------------------------------

/// Terminate a command line, as a DTE does.
const CR: &str = "\r";

#[test]
fn every_command_gcap_names_is_answered() {
    // A DCE that lists a command it does not implement is worse
    // than one that lists nothing at all, because a DTE will believe it and
    // configure itself around a capability that is not there.
    let mut it = quiet_dce();
    let (out, _) = send(&mut it, &format!("AT+GCAP{CR}"));
    let listed: Vec<String> = out
        .lines()
        .find(|l| l.contains("+GCAP:"))
        .expect("no +GCAP response")
        .split(':')
        .nth(1)
        .unwrap()
        .split(',')
        .map(|s| s.trim().to_owned())
        .collect();
    assert!(!listed.is_empty());
    for name in listed {
        let (out, _) = send(&mut it, &format!("AT{name}=?{CR}"));
        assert!(
            !out.contains("ERROR"),
            "+GCAP names {name} but {name}=? answers {out:?}"
        );
    }
}

#[test]
fn modulation_selection_accepts_what_it_advertises() {
    let mut it = quiet_dce();
    let (out, _) = send(&mut it, &format!("AT+MS=?{CR}"));
    let offered = out
        .lines()
        .find(|l| l.contains("+MS:"))
        .expect("no +MS test response")
        .to_owned();
    for carrier in ["V22B", "V32"] {
        assert!(offered.contains(carrier), "+MS=? does not offer {carrier}");
        let (out, actions) = send(&mut it, &format!("AT+MS={carrier}{CR}"));
        assert!(out.contains("OK"), "+MS={carrier} answered {out:?}");
        assert!(
            matches!(&actions[..], [Action::SelectModulation(m)] if m.carrier.name() == carrier),
            "+MS={carrier} produced {actions:?}"
        );
    }
}

#[test]
fn a_modulation_that_is_not_offered_is_refused() {
    // Accepting one and then using something else is how a terminal ends up
    // believing a connection is something it is not. B103 is the pointed case:
    // there is a Bell 103 demodulator in this project and no transmitter, so a
    // Bell 103 call cannot be originated however much of one can be decoded.
    let mut it = quiet_dce();
    for refused in ["V90", "B103"] {
        let (out, actions) = send(&mut it, &format!("AT+MS={refused}{CR}"));
        assert!(out.contains("ERROR"), "+MS={refused} answered {out:?}");
        assert!(actions.is_empty());
    }
    let (out, actions) = send(&mut it, &format!("AT+MS=V90{CR}"));
    assert!(out.contains("ERROR"), "+MS=V90 answered {out:?}");
    assert!(actions.is_empty());
}

#[test]
fn reading_back_a_modulation_gives_what_was_set() {
    let mut it = quiet_dce();
    send(&mut it, &format!("AT+MS=V32,0,1200,4800{CR}"));
    let (out, _) = send(&mut it, &format!("AT+MS?{CR}"));
    assert!(out.contains("+MS: V32,0,1200,4800"), "read back {out:?}");
}

#[test]
fn error_control_selection_follows_table_20() {
    let mut it = quiet_dce();
    // 3 is V.42 with the detection phase, which is the default.
    let (_, actions) = send(&mut it, &format!("AT+ES=3,0{CR}"));
    let Some(Action::SelectErrorControl(e)) = actions.first() else {
        panic!("no action from +ES: {actions:?}");
    };
    assert!(e.wanted() && e.detect() && !e.required());

    // 2 asks for V.42 but without the detection phase.
    let (_, actions) = send(&mut it, &format!("AT+ES=2,0{CR}"));
    let Some(Action::SelectErrorControl(e)) = actions.first() else {
        panic!("no action");
    };
    assert!(e.wanted() && !e.detect());

    // 0 is direct mode: no error control at all.
    let (_, actions) = send(&mut it, &format!("AT+ES=0{CR}"));
    let Some(Action::SelectErrorControl(e)) = actions.first() else {
        panic!("no action");
    };
    assert!(!e.wanted());

    // A fallback of 2 or more requires it, and hangs up without it.
    let (_, actions) = send(&mut it, &format!("AT+ES=3,2{CR}"));
    let Some(Action::SelectErrorControl(e)) = actions.first() else {
        panic!("no action");
    };
    assert!(e.required());
}

#[test]
fn the_alternative_protocol_is_refused_rather_than_pretended_at() {
    // Table 20 value 4 is the alternative protocol, meaning MNP, which this
    // DCE does not implement. Accepting it would have a terminal expect a
    // protocol that never appears.
    let mut it = quiet_dce();
    let (out, actions) = send(&mut it, &format!("AT+ES=4{CR}"));
    assert!(out.contains("ERROR"), "+ES=4 answered {out:?}");
    assert!(actions.is_empty());
}

#[test]
fn compression_can_be_turned_off_and_on() {
    let mut it = quiet_dce();
    let (out, actions) = send(&mut it, &format!("AT+DS=0{CR}"));
    assert!(out.contains("OK"), "{out:?}");
    assert_eq!(actions, vec![Action::SelectCompression(false)]);
    let (_, actions) = send(&mut it, &format!("AT+DS=3{CR}"));
    assert_eq!(actions, vec![Action::SelectCompression(true)]);

    let (out, _) = send(&mut it, &format!("AT+DS?{CR}"));
    assert!(out.contains("+DS: 3"), "read back {out:?}");
}

#[test]
fn fclass_reports_data_and_only_data() {
    // Facsimile is a different recommendation and is not implemented, so
    // claiming class 1 or 2 would be a lie a fax program would act on.
    let mut it = quiet_dce();
    let (out, _) = send(&mut it, &format!("AT+FCLASS=?{CR}"));
    assert!(out.contains("+FCLASS: (0)"), "{out:?}");
    let (out, _) = send(&mut it, &format!("AT+FCLASS=1{CR}"));
    assert!(out.contains("ERROR"), "claimed a fax class: {out:?}");
}

// -- what else the layer does -------------------------------------------------

#[test]
fn every_basic_setting_is_stored() {
    let mut it = quiet_dce();
    assert_eq!(send(&mut it, "ATL3M2X1P&C0&D1\r").0, "\r\nOK\r\n");
    assert_eq!(it.config.speaker_volume, 3);
    assert_eq!(it.config.speaker_mode, 2);
    assert_eq!(it.config.x, 1);
    assert!(it.config.pulse_dialling);
    assert_eq!(it.config.dcd, 0);
    assert_eq!(it.config.dtr, 1);
    assert_eq!(send(&mut it, "ATT\r").0, "\r\nOK\r\n");
    assert!(!it.config.pulse_dialling);
}

#[test]
fn a_number_past_a_byte_is_refused() {
    let mut it = quiet_dce();
    assert_eq!(send(&mut it, "ATI256\r").0, "\r\nERROR\r\n");
    assert_eq!(send(&mut it, "ATI99999999999\r").0, "\r\nERROR\r\n");
}

#[test]
fn each_identification_value_is_its_own() {
    let mut it = quiet_dce();
    it.identity = Identity {
        manufacturer: b"maker".to_vec(),
        model: b"kind".to_vec(),
        revision: b"7".to_vec(),
        serial: b"42".to_vec(),
    };
    for (n, text) in [(0, "kind"), (1, "7"), (2, "maker"), (3, "42"), (4, "0")] {
        let (out, _) = send(&mut it, &format!("ATI{n}\r"));
        assert_eq!(out, format!("\r\n{text}\r\n\r\nOK\r\n"));
    }
    for (name, text) in [("GMI", "maker"), ("GMM", "kind"), ("GMR", "7"), ("GSN", "42")] {
        let (out, _) = send(&mut it, &format!("AT+{name}\r"));
        assert_eq!(out, format!("\r\n{text}\r\n\r\nOK\r\n"));
        let (out, _) = send(&mut it, &format!("AT+{name}=?\r"));
        assert_eq!(out, format!("\r\n+{name}: (0)\r\n\r\nOK\r\n"));
        let (out, _) = send(&mut it, &format!("AT+{name}=1\r"));
        assert_eq!(out, "\r\nERROR\r\n");
    }
}

#[test]
fn the_eighth_bit_is_ignored() {
    let mut it = quiet_dce();
    for b in b"AT\r" {
        it.feed(b | 0x80);
    }
    assert_eq!(it.take_output(), b"\r\nOK\r\n".to_vec());
}

#[test]
fn the_terminator_wins_where_it_is_the_editor_too() {
    let mut it = quiet_dce();
    assert_eq!(send(&mut it, "ATS5=13\r").0, "\r\nOK\r\n");
    assert_eq!(send(&mut it, "AT\r").0, "\r\nOK\r\n");
}

#[test]
fn spaces_and_control_characters_are_ignored() {
    let mut it = quiet_dce();
    let (out, actions) = send(&mut it, "AT E 0 \x02 S0 = 3 & C 0 + DS = 0 \r");
    assert_eq!(out, "\r\nERROR\r\n", "a name follows its plus");
    assert!(actions.is_empty());
    let (out, actions) = send(&mut it, "AT E 0 \x02 S0 = 3 & C 0 +DS = 0 ; S0 ? \r");
    assert_eq!(out, "\r\n003\r\n\r\nOK\r\n");
    assert_eq!(actions, vec![Action::SelectCompression(false)]);
    assert_eq!(it.config.dcd, 0);
    assert_eq!(send(&mut it, "AT   \r").0, "\r\nOK\r\n");
}

#[test]
fn every_way_of_asking_an_extended_command() {
    let mut it = quiet_dce();
    assert_eq!(send(&mut it, "AT+MS?\r").0, "\r\n+MS: V32,1,0,0\r\n\r\nOK\r\n");
    assert_eq!(send(&mut it, "AT+ms=v22b,,300\r").0, "\r\nOK\r\n");
    assert_eq!(send(&mut it, "AT+MS?\r").0, "\r\n+MS: V22B,1,300,0\r\n\r\nOK\r\n");
    assert_eq!(send(&mut it, "AT+ES?\r").0, "\r\n+ES: 3,0\r\n\r\nOK\r\n");
    assert_eq!(send(&mut it, "AT+ES=2,3\r").0, "\r\nOK\r\n");
    assert_eq!(send(&mut it, "AT+ES?;+DS?\r").0, "\r\n+ES: 2,3\r\n\r\n+DS: 3\r\n\r\nOK\r\n");
    assert_eq!(send(&mut it, "AT+FCLASS?\r").0, "\r\n0\r\n\r\nOK\r\n");
    assert_eq!(send(&mut it, "AT+FCLASS=0\r").0, "\r\nOK\r\n");
    for refused in ["+MS", "+ES", "+DS", "+FCLASS", "+MS=V32,2", "+MS=V32,0,0,0,0", "+ES=3,4", "+ES=3,0,0", "+DS=1", "+DS=", "+DS=0,0"] {
        assert_eq!(send(&mut it, &format!("AT{refused}\r")).0, "\r\nERROR\r\n", "{refused}");
    }
    assert_eq!(it.config.modulation.min_rate, 300, "a refused value changes nothing");
}

#[test]
fn a_line_is_taken_apart() {
    let commands = parse_line(b"e0S7=90s7?&f+ms=v32;dt5;1").unwrap();
    assert_eq!(
        commands,
        vec![
            Command::Basic { amp: false, letter: b'E', number: Some(0) },
            Command::SetS(7, Some(90)),
            Command::ReadS(7),
            Command::Basic { amp: true, letter: b'F', number: None },
            Command::Extended { name: b"MS".to_vec(), op: ExtOp::Assign(b"v32".to_vec()) },
            Command::Dial(b"t5;1".to_vec()),
        ]
    );
    assert_eq!(parse_line(b""), Ok(vec![]));
}

#[test]
fn a_line_that_cannot_be_taken_apart_says_why() {
    assert_eq!(parse_line(b"E0%"), Err(ParseError::Unexpected));
    assert_eq!(parse_line(b"&"), Err(ParseError::Unexpected));
    assert_eq!(parse_line(b"&1"), Err(ParseError::Unexpected));
    assert_eq!(parse_line(b"E4294967296"), Err(ParseError::Number));
    assert_eq!(parse_line(b"S7=4294967296"), Err(ParseError::Number));
    assert_eq!(parse_line(b"S7"), Err(ParseError::Operator));
    assert_eq!(parse_line(b"S7X"), Err(ParseError::Operator));
    assert_eq!(parse_line(b"+"), Err(ParseError::Extended));
    assert_eq!(parse_line(b"+GMI?X"), Err(ParseError::Extended));
    let op = |line: &[u8]| match parse_line(line).unwrap().pop() {
        Some(Command::Extended { op, .. }) => op,
        other => panic!("{other:?}"),
    };
    assert_eq!(op(b"+GMI"), ExtOp::Execute);
    assert_eq!(op(b"+GMI ?"), ExtOp::Read);
    assert_eq!(op(b"+GMI= ? "), ExtOp::Test);
    assert_eq!(op(b"+GMI=?1"), ExtOp::Assign(b"?1".to_vec()));
}

#[test]
fn registers_say_why_they_refuse() {
    let mut regs = Registers::default();
    assert_eq!(regs.get(9), Err(RegError::Unknown));
    assert_eq!(regs.set(9, 0), Err(RegError::Unknown));
    assert_eq!(regs.set(10, 255), Err(RegError::OutOfRange));
    assert_eq!(regs.set(7, 300), Err(RegError::OutOfRange));
    assert_eq!(regs, Registers::default());
    assert_eq!(regs.set(8, 5), Ok(()));
    assert_eq!(regs.get(8), Ok(5));
    assert_eq!((regs.get(0), regs.get(3), regs.get(4), regs.get(5)), (Ok(0), Ok(13), Ok(10), Ok(8)));
    assert_eq!((regs.get(6), regs.get(7), regs.get(10)), (Ok(2), Ok(50), Ok(14)));
    assert_eq!((regs.terminator(), regs.editor()), (13, 8));
}

#[test]
fn every_result_code_has_its_words_and_its_digit() {
    for (code, words, digit) in [
        (ResultCode::Okay, "OK", '0'),
        (ResultCode::Connect, "CONNECT", '1'),
        (ResultCode::Ring, "RING", '2'),
        (ResultCode::NoCarrier, "NO CARRIER", '3'),
        (ResultCode::Error, "ERROR", '4'),
        (ResultCode::NoDialtone, "NO DIALTONE", '6'),
        (ResultCode::Busy, "BUSY", '7'),
        (ResultCode::NoAnswer, "NO ANSWER", '8'),
        (ResultCode::ConnectText(b"2400".to_vec()), "CONNECT 2400", '1'),
    ] {
        let mut it = quiet_dce();
        it.emit(code.clone());
        assert_eq!(it.take_output(), format!("\r\n{words}\r\n").into_bytes());
        it.fmt.verbose = false;
        it.emit(code.clone());
        assert_eq!(it.take_output(), format!("{digit}\r").into_bytes());
        it.fmt.quiet = true;
        it.emit(code);
        assert!(it.take_output().is_empty());
    }
}

#[test]
fn which_actions_defer_and_which_end_the_line() {
    for (action, defers, ends) in [
        (Action::Dial(b"1".to_vec()), true, true),
        (Action::Answer, true, true),
        (Action::ReturnOnline, true, true),
        (Action::ResetProfile(0), false, true),
        (Action::FactoryDefaults(0), false, false),
        (Action::HangUp, false, false),
        (Action::OffHook, false, false),
    ] {
        assert_eq!(action.defers_result(), defers, "{action:?}");
        assert_eq!(action.terminates_line(), ends, "{action:?}");
    }
}

#[test]
fn a_body_that_fails_keeps_what_it_set_and_asks_for_nothing() {
    let mut at = Interpreter::new();
    at.execute_line(b"S0=5H0X9S0=7");
    assert_eq!(at.take_output(), b"\r\nERROR\r\n");
    assert!(at.take_actions().is_empty());
    assert_eq!(at.regs.get(0), Ok(5));
    let mut at = Interpreter::new();
    at.execute_line(b"&FX9");
    assert_eq!(at.take_output(), b"\r\nERROR\r\n");
    assert!(at.take_actions().is_empty());
}

#[test]
fn an_extended_command_answers_by_its_name() {
    let mut at = Interpreter::new();
    assert!(matches!(at.extended(b"FCLASS", &ExtOp::Test), Ok(None)));
    assert_eq!(at.take_output(), b"\r\n+FCLASS: (0)\r\n");
    assert!(matches!(at.extended(b"FCLASS", &ExtOp::Assign(b"1".to_vec())), Err(ResultCode::Error)));
    assert!(at.take_output().is_empty());
}
