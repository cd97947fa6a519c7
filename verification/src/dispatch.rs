use crate::error::CountError;
use vstd::prelude::*;

verus! {

/// Where the bytes come from, as the command line names it.
#[derive(Clone, Debug, PartialEq, Eq)]
pub enum InputSource {
    /// The standard input stream.
    StandardInput,
    /// The file of the given path.
    Path(String),
}

/// An input as it is once it has been looked at.
#[derive(Clone, Debug, PartialEq, Eq)]
pub enum InputDescriptor {
    /// A named file whose bytes can be addressed by offset and whose length
    /// is known.
    SeekableFile { path: String, byte_length: u64 },
    /// Anything that can only be read front to back.
    Stream,
}

/// The way in which an input is counted.
#[derive(Clone, Copy, Debug, PartialEq, Eq, Structural)]
pub enum Strategy {
    /// Nothing is read: the count is 0.
    Empty,
    /// The chunks of the file are counted in parallel.
    Parallel,
    /// The stream is counted as it is read.
    Sequential,
}

/// The argument that stands for the standard input.
pub open spec fn is_dash(argument: Seq<char>) -> bool {
    argument == seq!['-']
}

/// Tells from the arguments of the command line, the program's name left
/// out, where the bytes come from. No argument, or a lone `-`, names the
/// standard input; any other lone argument is the path of a file. More than
/// one argument is refused.
pub fn resolve_input(arguments: &Vec<String>) -> (result: Result<InputSource, CountError>)
    ensures
        arguments@.len() == 0 ==> result == Ok::<InputSource, CountError>(
            InputSource::StandardInput,
        ),
        arguments@.len() == 1 && is_dash(arguments@[0]@) ==> result == Ok::<
            InputSource,
            CountError,
        >(InputSource::StandardInput),
        arguments@.len() == 1 && !is_dash(arguments@[0]@) ==> result == Ok::<
            InputSource,
            CountError,
        >(InputSource::Path(arguments@[0])),
        arguments@.len() >= 2 ==> result == Err::<InputSource, CountError>(
            CountError::UsageError,
        ),
{
    if arguments.len() == 0 {
        Ok(InputSource::StandardInput)
    } else if arguments.len() == 1 {
        let dash: String = "-".to_owned();
        proof {
            reveal_strlit("-");
            assert(dash@ =~= seq!['-']);
        }
        if arguments[0] == dash {
            Ok(InputSource::StandardInput)
        } else {
            Ok(InputSource::Path(arguments[0].clone()))
        }
    } else {
        Err(CountError::UsageError)
    }
}

/// Chooses how an input is counted: a file of known length chunk by chunk in
/// parallel, except that an empty one is not read at all; everything else
/// front to back.
pub fn select_strategy(input: &InputDescriptor) -> (strategy: Strategy)
    ensures
        strategy == match *input {
            InputDescriptor::SeekableFile { byte_length, .. } => if byte_length == 0 {
                Strategy::Empty
            } else {
                Strategy::Parallel
            },
            InputDescriptor::Stream => Strategy::Sequential,
        },
{
    match input {
        InputDescriptor::SeekableFile { byte_length, .. } => {
            if *byte_length == 0 {
                Strategy::Empty
            } else {
                Strategy::Parallel
            }
        },
        InputDescriptor::Stream => Strategy::Sequential,
    }
}

} // verus!
