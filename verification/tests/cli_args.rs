// The inscribe command's flag rules, exercised through a command built with
// clap's builder API: the metadata flags conflict, the sat flags conflict,
// and one of file or delegate is required.

use clap::{Arg, ArgAction, ArgGroup, Command};

fn assert_regex_match(string: &str, pattern: &str) {
    let regex = regex::Regex::new(&format!("^(?s){}$", pattern)).unwrap();
    if !regex.is_match(string) {
        panic!(
            "regex:\n\n{}\n\n…did not match string:\n\n{}\n",
            regex, string
        );
    }
}

fn inscribe_command() -> Command {
    Command::new("inscribe")
        .arg(
            Arg::new("cbor_metadata")
                .long("cbor-metadata")
                .value_name("CBOR_METADATA")
                .conflicts_with("json_metadata"),
        )
        .arg(
            Arg::new("json_metadata")
                .long("json-metadata")
                .value_name("JSON_METADATA"),
        )
        .arg(Arg::new("delegate").long("delegate").value_name("DELEGATE"))
        .arg(Arg::new("destination").long("destination").value_name("DESTINATION"))
        .arg(Arg::new("file").long("file").value_name("FILE"))
        .arg(Arg::new("fee_rate").long("fee-rate").value_name("FEE_RATE"))
        .arg(Arg::new("metaprotocol").long("metaprotocol").value_name("METAPROTOCOL"))
        .arg(Arg::new("parent").long("parent").value_name("PARENT"))
        .arg(Arg::new("postage").long("postage").value_name("POSTAGE"))
        .arg(
            Arg::new("reinscribe")
                .long("reinscribe")
                .action(ArgAction::SetTrue),
        )
        .arg(
            Arg::new("sat")
                .long("sat")
                .value_name("SAT")
                .conflicts_with("satpoint"),
        )
        .arg(Arg::new("satpoint").long("satpoint").value_name("SATPOINT"))
        .group(
            ArgGroup::new("input")
                .args(["delegate", "file"])
                .required(true)
                .multiple(true),
        )
}

fn arguments() -> Command {
    Command::new("ord")
        .arg(
            Arg::new("index_sats")
                .long("index-sats")
                .action(ArgAction::SetTrue),
        )
        .subcommand(Command::new("wallet").subcommand(inscribe_command()))
}

#[test]
fn cbor_and_json_metadata_flags_conflict() {
    assert_regex_match(
        &arguments()
            .try_get_matches_from([
                "ord",
                "wallet",
                "inscribe",
                "--cbor-metadata",
                "foo",
                "--json-metadata",
                "bar",
                "--file",
                "baz",
            ])
            .unwrap_err()
            .to_string(),
        ".*--cbor-metadata.*cannot be used with.*--json-metadata.*",
    );
}

#[test]
fn satpoint_and_sat_flags_conflict() {
    assert_regex_match(
        &arguments()
            .try_get_matches_from([
                "ord",
                "--index-sats",
                "wallet",
                "inscribe",
                "--sat",
                "50000000000",
                "--satpoint",
                "038112028c55f3f77cc0b8b413df51f70675f66be443212da0642b7636f68a00:1:0",
                "--file",
                "baz",
            ])
            .unwrap_err()
            .to_string(),
        ".*--sat.*cannot be used with.*--satpoint.*",
    );
}

#[test]
fn delegate_or_file_must_be_set() {
    assert_regex_match(
        &arguments()
            .try_get_matches_from(["ord", "wallet", "inscribe", "--fee-rate", "1"])
            .unwrap_err()
            .to_string(),
        r".*required arguments.*--delegate <DELEGATE>\|--file <FILE>.*",
    );

    assert!(arguments()
        .try_get_matches_from([
            "ord",
            "wallet",
            "inscribe",
            "--file",
            "hello.txt",
            "--fee-rate",
            "1"
        ])
        .is_ok());

    assert!(arguments()
        .try_get_matches_from([
            "ord",
            "wallet",
            "inscribe",
            "--delegate",
            "038112028c55f3f77cc0b8b413df51f70675f66be443212da0642b7636f68a00i0",
            "--fee-rate",
            "1"
        ])
        .is_ok());

    assert!(arguments()
        .try_get_matches_from([
            "ord",
            "wallet",
            "inscribe",
            "--file",
            "hello.txt",
            "--delegate",
            "038112028c55f3f77cc0b8b413df51f70675f66be443212da0642b7636f68a00i0",
            "--fee-rate",
            "1"
        ])
        .is_ok());
}

#[test]
fn flag_rules_match_the_library() {
    assert_eq!(
        ord_core::meta::validate_inscribe_flags(true, false, true, true, false, false),
        Err(ord_core::meta::ArgError::CborConflictsJson)
    );
    assert_eq!(
        ord_core::meta::validate_inscribe_flags(true, false, false, false, true, true),
        Err(ord_core::meta::ArgError::SatConflictsSatpoint)
    );
    assert_eq!(
        ord_core::meta::validate_inscribe_flags(false, false, false, false, false, false),
        Err(ord_core::meta::ArgError::FileOrDelegateRequired)
    );
    assert_eq!(
        ord_core::meta::validate_inscribe_flags(true, false, false, false, false, false),
        Ok(())
    );
    assert_eq!(
        ord_core::meta::validate_inscribe_flags(false, true, false, false, true, false),
        Ok(())
    );
}
