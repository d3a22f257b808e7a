//! Construction of the speech-synthesis invocation: the optional voice
//! selection flag and the text to speak, handed to the surrounding
//! application to spawn without blocking the caller.

use vstd::prelude::*;
use vstd::string::*;
use crate::strutil::views_of;

verus! {

/// The view of an optional string.
pub open spec fn opt_str_view(o: Option<String>) -> Option<Seq<char>> {
    match o {
        Some(s) => Some(s@),
        None => None,
    }
}

/// The arguments of the speech command: a voice-selection flag and its
/// voice when one was requested, then the text to speak.
pub open spec fn say_args_spec(text: Seq<char>, voice: Option<Seq<char>>) -> Seq<Seq<char>> {
    match voice {
        Some(v) => seq!["-v"@, v, text],
        None => seq![text],
    }
}

/// Builds the argument list for the speech command.
pub fn build_say_args(text: &str, voice: &Option<String>) -> (r: Vec<String>)
    ensures
        views_of(r@) == say_args_spec(text@, opt_str_view(*voice)),
{
    let mut args: Vec<String> = Vec::new();
    match voice {
        Some(v) => {
            args.push(String::from_str("-v"));
            args.push(v.clone());
        },
        None => {},
    }
    args.push(String::from_str(text));
    proof {
        assert(views_of(args@) =~= say_args_spec(text@, opt_str_view(*voice)));
    }
    args
}

} // verus!
