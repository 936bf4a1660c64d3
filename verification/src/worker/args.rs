//! The worker's command line.
use crate::text::{text_eq, views};
use vstd::prelude::*;

verus! {

/// What the worker is told at its start.
#[derive(Debug)]
pub struct WorkerArgs {
    pub socket_path: String,
    pub frame_socket_path: String,
    pub core_path: String,
    pub rom_path: Option<String>,
}

/// The values of the options, as far as they were given.
pub ghost struct Options {
    pub socket: Option<Seq<char>>,
    pub frame_socket: Option<Seq<char>>,
    pub core: Option<Seq<char>>,
    pub rom: Option<Seq<char>>,
}

/// The options from argument `i` on. An option takes the argument behind it, if there is one, and
/// replaces what was given before; other arguments are passed over.
pub open spec fn options_from(args: Seq<Seq<char>>, i: int, given: Options) -> Options
    decreases args.len() - i + 1,
{
    if i < 0 || i >= args.len() {
        given
    } else {
        let value = if i + 1 < args.len() {
            Some(args[i + 1])
        } else {
            None
        };
        if args[i] == "--socket"@ {
            options_from(args, i + 2, Options { socket: value, ..given })
        } else if args[i] == "--frame-socket"@ {
            options_from(args, i + 2, Options { frame_socket: value, ..given })
        } else if args[i] == "--core"@ {
            options_from(args, i + 2, Options { core: value, ..given })
        } else if args[i] == "--rom"@ {
            options_from(args, i + 2, Options { rom: value, ..given })
        } else {
            options_from(args, i + 1, given)
        }
    }
}

/// The options of a command line, whose first word is the program.
pub open spec fn options(args: Seq<Seq<char>>) -> Options {
    options_from(args, 1, Options { socket: None, frame_socket: None, core: None, rom: None })
}

/// A text as a sequence of characters, if there is one.
pub open spec fn text_view(text: Option<String>) -> Option<Seq<char>> {
    match text {
        Some(t) => Some(t@),
        None => None,
    }
}

fn value_at(args: &[String], i: usize) -> (value: Option<String>)
    ensures
        text_view(value) == if i < args@.len() {
            Some(views(args@)[i as int])
        } else {
            None
        },
{
    if i < args.len() {
        Some(args[i].clone())
    } else {
        None
    }
}

/// Reads the command line. The first option that is missing is named.
pub fn parse_args(args: &[String]) -> (res: Result<WorkerArgs, String>)
    ensures
        ({
            let wanted = options(views(args@));
            if wanted.socket is None {
                res matches Err(why) && why@ == "--socket required"@
            } else if wanted.frame_socket is None {
                res matches Err(why) && why@ == "--frame-socket required"@
            } else if wanted.core is None {
                res matches Err(why) && why@ == "--core required"@
            } else {
                res matches Ok(a) && wanted == (Options {
                    socket: Some(a.socket_path@),
                    frame_socket: Some(a.frame_socket_path@),
                    core: Some(a.core_path@),
                    rom: text_view(a.rom_path),
                })
            }
        }),
{
    let mut socket: Option<String> = None;
    let mut frame_socket: Option<String> = None;
    let mut core: Option<String> = None;
    let mut rom: Option<String> = None;
    let mut i: usize = 1;
    let ghost words = views(args@);
    while i < args.len()
        invariant
            1 <= i,
            i <= args@.len() || i == 1,
            words == views(args@),
            options_from(
                words,
                i as int,
                Options {
                    socket: text_view(socket),
                    frame_socket: text_view(frame_socket),
                    core: text_view(core),
                    rom: text_view(rom),
                },
            ) == options(words),
        decreases args.len() - i,
    {
        proof {
            reveal_with_fuel(options_from, 2);
        }
        let name = args[i].as_str();
        assert(words[i as int] == name@);
        let value = value_at(args, i + 1);
        let mut is_option = true;
        if text_eq(name, "--socket") {
            socket = value;
        } else if text_eq(name, "--frame-socket") {
            frame_socket = value;
        } else if text_eq(name, "--core") {
            core = value;
        } else if text_eq(name, "--rom") {
            rom = value;
        } else {
            is_option = false;
        }
        if is_option && i + 1 < args.len() {
            i += 2;
        } else {
            i += 1;
        }
    }
    match socket {
        None => Err("--socket required".to_owned()),
        Some(socket_path) => match frame_socket {
            None => Err("--frame-socket required".to_owned()),
            Some(frame_socket_path) => match core {
                None => Err("--core required".to_owned()),
                Some(core_path) => Ok(
                    WorkerArgs { socket_path, frame_socket_path, core_path, rom_path: rom },
                ),
            },
        },
    }
}

/// A command line of options, each with its value behind it.
pub open spec fn line_of(
    program: Seq<char>,
    names: Seq<Seq<char>>,
    values: Seq<Seq<char>>,
) -> Seq<Seq<char>> {
    Seq::new(
        1 + 2 * names.len(),
        |k: int|
            if k == 0 {
                program
            } else if k % 2 == 1 {
                names[k / 2]
            } else {
                values[k / 2 - 1]
            },
    )
}

/// Whether a word is the name of an option.
pub open spec fn is_option(word: Seq<char>) -> bool {
    word == "--socket"@ || word == "--frame-socket"@ || word == "--core"@ || word == "--rom"@
}

/// What was given for an option.
pub open spec fn given_for(options: Options, name: Seq<char>) -> Option<Seq<char>> {
    if name == "--socket"@ {
        options.socket
    } else if name == "--frame-socket"@ {
        options.frame_socket
    } else if name == "--core"@ {
        options.core
    } else {
        options.rom
    }
}

/// An option has the value that was given for it last, and none where none was given.
pub proof fn law_last_value_counts(
    program: Seq<char>,
    names: Seq<Seq<char>>,
    values: Seq<Seq<char>>,
    name: Seq<char>,
    n: int,
)
    requires
        values.len() == names.len(),
        forall|i: int| 0 <= i < names.len() ==> is_option(#[trigger] names[i]),
        is_option(name),
        -1 <= n < names.len(),
        n >= 0 ==> names[n] == name,
        forall|i: int| n < i < names.len() ==> #[trigger] names[i] != name,
    ensures
        given_for(options(line_of(program, names, values)), name) == if n >= 0 {
            Some(values[n])
        } else {
            None
        },
{
    lemma_option_names();
    lemma_last_value(
        program,
        names,
        values,
        name,
        n,
        0,
        Options { socket: None, frame_socket: None, core: None, rom: None },
    );
}

proof fn lemma_option_names()
    ensures
        "--socket"@ != "--frame-socket"@,
        "--socket"@ != "--core"@,
        "--socket"@ != "--rom"@,
        "--frame-socket"@ != "--core"@,
        "--frame-socket"@ != "--rom"@,
        "--core"@ != "--rom"@,
{
    reveal_strlit("--socket");
    reveal_strlit("--frame-socket");
    reveal_strlit("--core");
    reveal_strlit("--rom");
    assert("--socket"@.len() == 8);
    assert("--frame-socket"@.len() == 14);
    assert("--core"@.len() == 6);
    assert("--rom"@.len() == 5);
}

proof fn lemma_last_value(
    program: Seq<char>,
    names: Seq<Seq<char>>,
    values: Seq<Seq<char>>,
    name: Seq<char>,
    n: int,
    i: int,
    given: Options,
)
    requires
        values.len() == names.len(),
        forall|i: int| 0 <= i < names.len() ==> is_option(#[trigger] names[i]),
        is_option(name),
        -1 <= n < names.len(),
        n >= 0 ==> names[n] == name,
        forall|i: int| n < i < names.len() ==> #[trigger] names[i] != name,
        0 <= i <= names.len(),
    ensures
        given_for(options_from(line_of(program, names, values), 1 + 2 * i, given), name) == if i
            <= n {
            Some(values[n])
        } else {
            given_for(given, name)
        },
    decreases names.len() - i,
{
    lemma_option_names();
    if i < names.len() {
        let args = line_of(program, names, values);
        assert(args[1 + 2 * i] == names[i]);
        assert(args[2 + 2 * i] == values[i]);
        assert(is_option(names[i]));
        let value = Some(values[i]);
        let next = if names[i] == "--socket"@ {
            Options { socket: value, ..given }
        } else if names[i] == "--frame-socket"@ {
            Options { frame_socket: value, ..given }
        } else if names[i] == "--core"@ {
            Options { core: value, ..given }
        } else {
            Options { rom: value, ..given }
        };
        assert(options_from(args, 1 + 2 * i, given) == options_from(args, 1 + 2 * (i + 1), next));
        lemma_last_value(program, names, values, name, n, i + 1, next);
    }
}

} // verus!
