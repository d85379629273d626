//! Which program renders a callback target, and what its run comes to.

use crate::text::{rsplit_once, rsplit_once_chars};
use crate::unicode::{chars_of, from_utf8_lossy, lossy_text, str_eq, string_of, texts};
use vstd::prelude::*;

verus! {

/// How the content of a callback target is made.
#[derive(Debug, Clone, Copy, PartialEq, Eq, Structural)]
pub enum Renderer {
    /// The target is a script for the Python interpreter.
    Python,
    /// The target is a script for the JavaScript runtime.
    Javascript,
    /// The target is a file whose bytes are the content.
    File,
}

/// The extension of a file name: what follows its last dot, or the whole
/// name if it has no dot.
pub open spec fn extension_of(filename: Seq<char>) -> Seq<char> {
    match rsplit_once(filename, "."@) {
        Some((stem, extension)) => extension,
        None => filename,
    }
}

/// The renderer for a file name: by its extension, `py` or `js` for the two
/// kinds of script.
pub open spec fn renderer_for(filename: Seq<char>) -> Renderer {
    if extension_of(filename) == "py"@ {
        Renderer::Python
    } else if extension_of(filename) == "js"@ {
        Renderer::Javascript
    } else {
        Renderer::File
    }
}

/// The command that renders a script: the program for its kind, then the
/// path of the script and the arguments as the program's two arguments. A
/// plain file is read, not run, and has no command.
pub open spec fn command_line(renderer: Renderer, script: Seq<char>, arguments: Seq<char>) -> Option<
    Seq<Seq<char>>,
> {
    match renderer {
        Renderer::Python => Some(seq!["python3"@, script, arguments]),
        Renderer::Javascript => Some(seq!["node"@, script, arguments]),
        Renderer::File => None,
    }
}

/// What a finished script gives: its output if it ended well, else what it
/// wrote as diagnostics, read as text.
pub open spec fn script_outcome(success: bool, stdout: Seq<u8>, stderr: Seq<u8>) -> Result<
    Seq<u8>,
    Seq<char>,
> {
    if success {
        Ok(stdout)
    } else {
        Err(lossy_text(stderr))
    }
}

impl Renderer {
    /// The renderer for the callback target `filename`.
    pub fn of(filename: &str) -> (renderer: Renderer)
        ensures
            renderer == renderer_for(filename@),
    {
        let name = chars_of(filename);
        let dot = chars_of(".");
        let extension = match rsplit_once_chars(name.as_slice(), dot.as_slice()) {
            Some((stem, extension)) => string_of(extension.as_slice()),
            None => string_of(name.as_slice()),
        };
        if str_eq(extension.as_str(), "py") {
            Renderer::Python
        } else if str_eq(extension.as_str(), "js") {
            Renderer::Javascript
        } else {
            Renderer::File
        }
    }

    /// The command that renders `script` with `arguments`; see
    /// [`command_line`].
    pub fn command(&self, script: &str, arguments: &str) -> (command: Option<Vec<String>>)
        ensures
            match command {
                Some(words) => command_line(*self, script@, arguments@) == Some(
                    texts(words@),
                ),
                None => command_line(*self, script@, arguments@) is None,
            },
    {
        let program = match self {
            Renderer::Python => "python3",
            Renderer::Javascript => "node",
            Renderer::File => {
                return None;
            },
        };
        let mut words: Vec<String> = Vec::new();
        words.push(program.to_owned());
        words.push(script.to_owned());
        words.push(arguments.to_owned());
        assert(texts(words@) =~= seq![program@, script@, arguments@]);
        Some(words)
    }
}

/// The result of running a script, from whether it ended well and what it
/// wrote; see [`script_outcome`].
pub fn script_result(success: bool, stdout: Vec<u8>, stderr: &[u8]) -> (r: Result<Vec<u8>, String>)
    ensures
        match r {
            Ok(output) => script_outcome(success, stdout@, stderr@) == Ok::<Seq<u8>, Seq<char>>(
                output@,
            ),
            Err(message) => script_outcome(success, stdout@, stderr@) == Err::<
                Seq<u8>,
                Seq<char>,
            >(message@),
        },
{
    if success {
        Ok(stdout)
    } else {
        Err(from_utf8_lossy(stderr))
    }
}

} // verus!
