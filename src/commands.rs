use crate::chunk::{chunk_of, Chunk};
use crate::chunk_type::ChunkType;
use crate::error::{ChunkError, PngError};
use crate::png::{first_match, parse_png, png_wire, render, Png};
use crate::wire::push_range;
use vstd::prelude::*;
use vstd::utf8::*;

verus! {

/// Append a message chunk to a file.
pub struct EncodeCmdArgs {
    pub file_path: String,
    pub chunk_type: String,
    pub message: String,
    pub output_file_path: Option<String>,
}

/// Show the message held in a chunk of a file.
pub struct DecodeCmdArgs {
    pub file_path: String,
    pub chunk_type: String,
}

/// Remove a chunk from a file.
pub struct RemoveCmdArgs {
    pub file_path: String,
    pub chunk_type: String,
}

/// List the chunks of a file.
pub struct PrintCmdArgs {
    pub file_path: String,
}

/// One subcommand with its arguments.
pub enum Cmd {
    Encode(EncodeCmdArgs),
    Decode(DecodeCmdArgs),
    Remove(RemoveCmdArgs),
    Print(PrintCmdArgs),
}

/// The command line: the subcommand to run.
pub struct Commands {
    pub cmd: Cmd,
}

/// Why a subcommand failed.
#[derive(Debug, Clone, Copy, PartialEq, Eq, Structural)]
pub enum CommandError {
    /// The file is not a well-formed PNG, or the chunk to remove is absent.
    Container(PngError),
    /// The chunk type or the chunk's data was refused.
    Chunk(ChunkError),
    /// No chunk has the requested type.
    NotFound,
    /// The message is longer than a chunk can hold.
    MessageTooLong,
}

impl Commands {
    /// The bytes of `file` with a chunk of the requested type, holding the
    /// message, appended at the end.
    pub fn encode(args: &EncodeCmdArgs, file: &[u8]) -> (r: Result<Vec<u8>, CommandError>)
        ensures
            match parse_png(file@) {
                Err(e) => r == Err::<Vec<u8>, CommandError>(CommandError::Container(e)),
                Ok(cs) => {
                    let tb = encode_utf8(args.chunk_type@);
                    let msg = encode_utf8(args.message@);
                    if !(tb.len() == 4 && ChunkType::of_bytes(tb).all_letters()) {
                        r == Err::<Vec<u8>, CommandError>(
                            CommandError::Chunk(ChunkError::InvalidTypeCode),
                        )
                    } else if msg.len() > u32::MAX {
                        r == Err::<Vec<u8>, CommandError>(CommandError::MessageTooLong)
                    } else {
                        r matches Ok(out) && out@ == png_wire(
                            cs.push(chunk_of(ChunkType::of_bytes(tb), msg)),
                        )
                    }
                },
            },
    {
        let mut png = match Png::from_bytes(file) {
            Ok(p) => p,
            Err(e) => {
                return Err(CommandError::Container(e));
            },
        };
        let chunk_type = match ChunkType::from_text(args.chunk_type.as_str()) {
            Ok(t) => t,
            Err(e) => {
                return Err(CommandError::Chunk(e));
            },
        };
        proof {
            assert(ChunkType::of_bytes(encode_utf8(args.chunk_type@)) == chunk_type);
        }
        let message = args.message.as_str().as_bytes();
        if message.len() as u64 > 0xffff_ffffu64 {
            return Err(CommandError::MessageTooLong);
        }
        let mut data: Vec<u8> = Vec::new();
        push_range(&mut data, message, 0, message.len());
        assert(data@ =~= encode_utf8(args.message@));
        png.append_chunk(Chunk::new(chunk_type, data));
        Ok(png.as_bytes())
    }

    /// The message held in the first chunk of the requested type.
    pub fn decode(args: &DecodeCmdArgs, file: &[u8]) -> (r: Result<String, CommandError>)
        ensures
            match parse_png(file@) {
                Err(e) => r == Err::<String, CommandError>(CommandError::Container(e)),
                Ok(cs) => match first_match(cs, args.chunk_type@) {
                    None => r == Err::<String, CommandError>(CommandError::NotFound),
                    Some(i) => if valid_utf8(cs[i].data) {
                        r matches Ok(s) && s@ == decode_utf8(cs[i].data)
                    } else {
                        r == Err::<String, CommandError>(
                            CommandError::Chunk(ChunkError::NotUtf8Text),
                        )
                    },
                },
            },
    {
        let png = match Png::from_bytes(file) {
            Ok(p) => p,
            Err(e) => {
                return Err(CommandError::Container(e));
            },
        };
        match png.chunk_by_type(args.chunk_type.as_str()) {
            Some(chunk) => match chunk.data_as_string() {
                Ok(s) => Ok(s),
                Err(e) => Err(CommandError::Chunk(e)),
            },
            None => Err(CommandError::NotFound),
        }
    }

    /// Removes the first chunk of the requested type from the parsed file.
    pub fn remove(args: &RemoveCmdArgs, file: &[u8]) -> (r: Result<(), CommandError>)
        ensures
            match parse_png(file@) {
                Err(e) => r == Err::<(), CommandError>(CommandError::Container(e)),
                Ok(cs) => match first_match(cs, args.chunk_type@) {
                    None => r == Err::<(), CommandError>(
                        CommandError::Container(PngError::ChunkNotFound),
                    ),
                    Some(_) => r is Ok,
                },
            },
    {
        let mut png = match Png::from_bytes(file) {
            Ok(p) => p,
            Err(e) => {
                return Err(CommandError::Container(e));
            },
        };
        match png.remove_chunk(args.chunk_type.as_str()) {
            Ok(_) => Ok(()),
            Err(e) => Err(CommandError::Container(e)),
        }
    }

    /// The listing of the file's chunks.
    pub fn print(args: &PrintCmdArgs, file: &[u8]) -> (r: Result<String, CommandError>)
        ensures
            match parse_png(file@) {
                Err(e) => r == Err::<String, CommandError>(CommandError::Container(e)),
                Ok(cs) => r matches Ok(s) && s@ == render(cs),
            },
    {
        match Png::from_bytes(file) {
            Ok(png) => Ok(png.to_string()),
            Err(e) => Err(CommandError::Container(e)),
        }
    }
}

} // verus!
