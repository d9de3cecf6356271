use dns_codec::command_line::{parse_cli_args, CommandLineArgs, PacketOperation};

fn args(decode: bool, resolve: bool) -> CommandLineArgs {
    CommandLineArgs {
        decode,
        resolve,
        file: Some(String::from("query.bin")),
        output_file: None,
    }
}

#[test]
fn can_parse_cli_args() {
    match parse_cli_args(args(true, false)) {
        PacketOperation::Decode { infile, outfile } => {
            assert_eq!(infile.as_deref(), Some("query.bin"));
            assert_eq!(outfile, None);
        }
        other => panic!("expected decoding, got {:?}", other),
    }
    match parse_cli_args(args(false, true)) {
        PacketOperation::Query { infile, outfile } => {
            assert_eq!(infile.as_deref(), Some("query.bin"));
            assert_eq!(outfile, None);
        }
        other => panic!("expected forwarding, got {:?}", other),
    }
}

#[test]
fn no_operation_without_a_flag() {
    assert!(matches!(parse_cli_args(args(false, false)), PacketOperation::NOOP));
}

#[test]
fn decoding_goes_before_forwarding() {
    let both = CommandLineArgs {
        decode: true,
        resolve: true,
        file: None,
        output_file: Some(String::from("out.txt")),
    };
    match parse_cli_args(both) {
        PacketOperation::Decode { infile, outfile } => {
            assert_eq!(infile, None);
            assert_eq!(outfile.as_deref(), Some("out.txt"));
        }
        other => panic!("expected decoding, got {:?}", other),
    }
}
