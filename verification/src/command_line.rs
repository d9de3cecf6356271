//! The operations that the command line can ask for.

use vstd::prelude::*;

verus! {

/// The arguments of the command line, as they were given.
#[derive(Debug, Clone)]
pub struct CommandLineArgs {
    /// Whether a datagram is to be decoded and printed.
    pub decode: bool,
    /// Whether a query is to be forwarded upstream.
    pub resolve: bool,
    /// The file to read from; standard input where there is none.
    pub file: Option<String>,
    /// The file to write to; standard output where there is none.
    pub output_file: Option<String>,
}

/// What the program is asked to do.
#[derive(Debug)]
pub enum PacketOperation {
    /// Decode the datagram in `infile` and write the message to `outfile`.
    Decode { infile: Option<String>, outfile: Option<String> },
    /// Forward the query in `infile` and write the response to `outfile`.
    Query { infile: Option<String>, outfile: Option<String> },
    /// Nothing.
    NOOP,
}

/// Which operation was chosen.
pub enum OperationKind {
    Decode,
    Query,
    NOOP,
}

impl PacketOperation {
    /// The kind of the operation.
    pub open spec fn kind(self) -> OperationKind {
        match self {
            PacketOperation::Decode { .. } => OperationKind::Decode,
            PacketOperation::Query { .. } => OperationKind::Query,
            PacketOperation::NOOP => OperationKind::NOOP,
        }
    }

    /// The file to read from, if the operation reads one.
    pub open spec fn infile(self) -> Option<String> {
        match self {
            PacketOperation::Decode { infile, .. } => infile,
            PacketOperation::Query { infile, .. } => infile,
            PacketOperation::NOOP => None,
        }
    }

    /// The file to write to, if the operation writes one.
    pub open spec fn outfile(self) -> Option<String> {
        match self {
            PacketOperation::Decode { outfile, .. } => outfile,
            PacketOperation::Query { outfile, .. } => outfile,
            PacketOperation::NOOP => None,
        }
    }
}

/// The operation that the arguments ask for: decoding where `decode` is
/// set, else forwarding where `resolve` is set, else nothing. The two files
/// are handed on as they are.
pub fn parse_cli_args(args: CommandLineArgs) -> (operation: PacketOperation)
    ensures
        args.decode ==> operation.kind() is Decode,
        !args.decode && args.resolve ==> operation.kind() is Query,
        !args.decode && !args.resolve ==> operation is NOOP,
        args.decode || args.resolve ==> operation.infile() == args.file && operation.outfile()
            == args.output_file,
{
    if args.decode {
        PacketOperation::Decode { infile: args.file, outfile: args.output_file }
    } else if args.resolve {
        PacketOperation::Query { infile: args.file, outfile: args.output_file }
    } else {
        PacketOperation::NOOP
    }
}

} // verus!
