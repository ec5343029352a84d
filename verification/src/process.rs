//! The result of running a program to completion.

use vstd::prelude::*;
use vstd::utf8::*;

verus! {

/// The message of the error with which `String::from_utf8` refuses
/// `bytes` (its `Display`, which gives where the invalid sequence starts).
pub uninterp spec fn utf8_refusal(bytes: Seq<u8>) -> Seq<char>;

/// `String::from_utf8`, with its error as its message (`to_string`). Claims
/// what std documents: it succeeds exactly on valid UTF-8 (stated over vstd's
/// UTF-8 model), giving the characters encoded; and the message depends on
/// the bytes alone (`utf8_refusal`).
#[verifier::external_body]
fn decode_utf8_strict(bytes: Vec<u8>) -> (res: Result<String, String>)
    ensures
        res is Ok <==> valid_utf8(bytes@),
        res matches Ok(s) ==> s@ == decode_utf8(bytes@),
        res matches Err(m) ==> m@ == utf8_refusal(bytes@),
{
    String::from_utf8(bytes).map_err(|e| e.to_string())
}

/// What `run_process` gives a script: the exit code (none when the program
/// was ended by a signal) and the two output streams as text.
pub struct ProcessOutput {
    pub status: Option<i32>,
    pub stdout: String,
    pub stderr: String,
}

/// Why the output could not be given: a stream was not UTF-8.
#[derive(Debug)]
pub struct OutputError {
    pub message: String,
}

/// The output of a finished program, its streams decoded as UTF-8: fails,
/// checking standard output first, when either stream is not UTF-8, with
/// std's message for that stream.
pub fn process_output(status: Option<i32>, stdout: Vec<u8>, stderr: Vec<u8>) -> (res: Result<ProcessOutput, OutputError>)
    ensures
        res is Ok <==> valid_utf8(stdout@) && valid_utf8(stderr@),
        res matches Ok(o) ==> {
            &&& o.status == status
            &&& o.stdout@ == decode_utf8(stdout@)
            &&& o.stderr@ == decode_utf8(stderr@)
        },
        !valid_utf8(stdout@) ==> (res matches Err(e) && e.message@ == utf8_refusal(stdout@)),
        valid_utf8(stdout@) && !valid_utf8(stderr@) ==> (res matches Err(e) && e.message@ == utf8_refusal(stderr@)),
{
    let out = match decode_utf8_strict(stdout) {
        Ok(s) => s,
        Err(m) => {
            return Err(OutputError { message: m });
        },
    };
    let err = match decode_utf8_strict(stderr) {
        Ok(s) => s,
        Err(m) => {
            return Err(OutputError { message: m });
        },
    };
    Ok(ProcessOutput { status, stdout: out, stderr: err })
}

} // verus!
