//! Model provisioning decisions: the offline switch and its message.

use vstd::prelude::*;

use crate::text::{ascii_lowercase, chars_eq, chars_of, push_str, to_ascii_lowercase, trim, trimmed_chars};

verus! {

/// Whether a flag value turns the switch on: anything but (after trimming
/// and ASCII-lowercasing) the empty string, `0`, `false`, `no` or `off`.
pub open spec fn env_flag_enabled_spec(value: Seq<char>) -> bool {
    let t = ascii_lowercase(trim(value));
    !(t == ""@ || t == "0"@ || t == "false"@ || t == "no"@ || t == "off"@)
}

/// Reads an environment flag such as `TURBOLOG_OFFLINE`: common falsey
/// spellings turn it off, every other value turns it on.
pub fn env_flag_enabled(value: &str) -> (b: bool)
    ensures
        b == env_flag_enabled_spec(value@),
{
    let t = to_ascii_lowercase(&trimmed_chars(value));
    let off =
        chars_eq(&t, &chars_of(""))
        || chars_eq(&t, &chars_of("0"))
        || chars_eq(&t, &chars_of("false"))
        || chars_eq(&t, &chars_of("no"))
        || chars_eq(&t, &chars_of("off"));
    !off
}

/// The error shown when the model files are missing and downloads are off.
pub open spec fn offline_model_message_spec(dir: Seq<char>) -> Seq<char> {
    "Model files are missing and TURBOLOG_OFFLINE=1 is set. Supply model.onnx and tokenizer.json in "@
        + dir
        + " or set TURBOLOG_MODEL_DIR to a directory that contains them. To populate ./models while online, run ./scripts/download_model.sh."@
}

/// Explains where to put the model files when `TURBOLOG_OFFLINE` forbids
/// downloading them; `dir` is the directory that was searched.
pub fn offline_model_message(dir: &str) -> (m: String)
    ensures
        m@ == offline_model_message_spec(dir@),
{
    let mut m = String::new();
    push_str(&mut m, "Model files are missing and TURBOLOG_OFFLINE=1 is set. Supply model.onnx and tokenizer.json in ");
    push_str(&mut m, dir);
    push_str(&mut m, " or set TURBOLOG_MODEL_DIR to a directory that contains them. To populate ./models while online, run ./scripts/download_model.sh.");
    m
}

} // verus!
