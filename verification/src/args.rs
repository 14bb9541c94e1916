//! The command-line processor: a state machine over the argument tokens
//! that yields the resolved configuration of one invocation.
//!
//! Recognized tokens, in the order they are tried:
//! - `-h` or `--help`: help is requested; processing stops at once.
//! - `-t` or `--target`: the next token, whatever it looks like, becomes
//!   the target base directory; with no next token the invocation fails
//!   with an argument error.
//! - `-o` or `--only-build-target`: the project directory will not be
//!   passed to the editor, only the build override is set.
//! - `--`: options end; the next token, if any, is the project directory.
//! - any other token starting with `-` of at least two characters: an
//!   unrecognized option, ignored.
//! - anything else: the first positional token, the project directory;
//!   processing stops and every later token is ignored.

use crate::errors::LauncherError;
use crate::text::str_eq;
use vstd::prelude::*;
use vstd::string::*;

verus! {

/// The configuration resolved from one invocation's arguments, in the
/// mathematical world: strings as character sequences.
pub ghost struct ConfigModel {
    /// Help was requested.
    pub show_help: bool,
    /// The explicit target base directory, when one was given.
    pub target_base_dir: Option<Seq<char>>,
    /// The project directory is not to be opened, only namespaced.
    pub suppress_open: bool,
    /// The first positional token, when one was given.
    pub project_dir: Option<Seq<char>>,
}

/// The configuration resolved from one invocation's arguments. Created
/// once from the token stream and read by the launch planner.
pub struct ResolvedConfig {
    /// Help was requested.
    pub show_help: bool,
    /// The explicit target base directory, when one was given.
    pub target_base_dir: Option<String>,
    /// The project directory is not to be opened, only namespaced.
    pub suppress_open: bool,
    /// The first positional token, when one was given.
    pub project_dir: Option<String>,
}

/// The character view of an optional string.
pub open spec fn opt_view(o: Option<String>) -> Option<Seq<char>> {
    match o {
        Some(t) => Some(t@),
        None => None,
    }
}

impl View for ResolvedConfig {
    type V = ConfigModel;

    open spec fn view(&self) -> ConfigModel {
        ConfigModel {
            show_help: self.show_help,
            target_base_dir: opt_view(self.target_base_dir),
            suppress_open: self.suppress_open,
            project_dir: opt_view(self.project_dir),
        }
    }
}

/// The configuration before any token is read.
pub open spec fn init_model() -> ConfigModel {
    ConfigModel { show_help: false, target_base_dir: None, suppress_open: false, project_dir: None }
}

/// The character views of the argument tokens.
pub open spec fn tok_views(ts: Seq<String>) -> Seq<Seq<char>> {
    ts.map_values(|t: String| t@)
}

/// Whether a token has the shape of an option: at least two characters,
/// the first a dash. A lone `-` is an ordinary positional token.
pub open spec fn is_opt_token(t: Seq<char>) -> bool {
    t.len() >= 2 && t[0] == '-'
}

/// The state machine over the tokens from position `i` on, with `acc` the
/// configuration resolved so far. `Err` means an option that requires a
/// value was given none.
pub open spec fn parse_from(toks: Seq<Seq<char>>, i: int, acc: ConfigModel) -> Result<
    ConfigModel,
    (),
>
    decreases toks.len() - i,
{
    if i < 0 || i >= toks.len() {
        Ok(acc)
    } else {
        let t = toks[i];
        if t == "-h"@ || t == "--help"@ {
            Ok(
                ConfigModel {
                    show_help: true,
                    target_base_dir: acc.target_base_dir,
                    suppress_open: acc.suppress_open,
                    project_dir: acc.project_dir,
                },
            )
        } else if t == "-t"@ || t == "--target"@ {
            if i + 1 >= toks.len() {
                Err(())
            } else {
                parse_from(
                    toks,
                    i + 2,
                    ConfigModel {
                        show_help: acc.show_help,
                        target_base_dir: Some(toks[i + 1]),
                        suppress_open: acc.suppress_open,
                        project_dir: acc.project_dir,
                    },
                )
            }
        } else if t == "-o"@ || t == "--only-build-target"@ {
            parse_from(
                toks,
                i + 1,
                ConfigModel {
                    show_help: acc.show_help,
                    target_base_dir: acc.target_base_dir,
                    suppress_open: true,
                    project_dir: acc.project_dir,
                },
            )
        } else if t == "--"@ {
            Ok(
                ConfigModel {
                    show_help: acc.show_help,
                    target_base_dir: acc.target_base_dir,
                    suppress_open: acc.suppress_open,
                    project_dir: if i + 1 < toks.len() {
                        Some(toks[i + 1])
                    } else {
                        acc.project_dir
                    },
                },
            )
        } else if is_opt_token(t) {
            parse_from(toks, i + 1, acc)
        } else {
            Ok(
                ConfigModel {
                    show_help: acc.show_help,
                    target_base_dir: acc.target_base_dir,
                    suppress_open: acc.suppress_open,
                    project_dir: Some(t),
                },
            )
        }
    }
}

/// The outcome of parsing a whole token stream.
pub open spec fn spec_parse(toks: Seq<Seq<char>>) -> Result<ConfigModel, ()> {
    parse_from(toks, 0, init_model())
}

/// Resolves the configuration from the argument tokens (the program name
/// already removed). Fails with an argument error exactly when `-t` or
/// `--target` is the last token.
pub fn parse_args(args: &Vec<String>) -> (r: Result<ResolvedConfig, LauncherError>)
    ensures
        r is Ok <==> spec_parse(tok_views(args@)) is Ok,
        r matches Ok(c) ==> spec_parse(tok_views(args@)) == Ok::<ConfigModel, ()>(c@),
        r is Err ==> r == Err::<ResolvedConfig, LauncherError>(LauncherError::Argument),
{
    let ghost toks = tok_views(args@);
    let mut target_base_dir: Option<String> = None;
    let mut suppress_open = false;
    let mut i: usize = 0;
    while i < args.len()
        invariant
            0 <= i <= args@.len(),
            toks == tok_views(args@),
            toks.len() == args@.len(),
            forall|k: int| 0 <= k < args@.len() ==> toks[k] == args@[k]@,
            parse_from(toks, i as int, loop_model(target_base_dir, suppress_open)) == spec_parse(
                toks,
            ),
        decreases args@.len() - i,
    {
        let ghost m = loop_model(target_base_dir, suppress_open);
        let t = args_at(args, i);
        if str_eq(t, "-h") || str_eq(t, "--help") {
            let c = ResolvedConfig {
                show_help: true,
                target_base_dir,
                suppress_open,
                project_dir: None,
            };
            assert(parse_from(toks, i as int, m) == Ok::<ConfigModel, ()>(c@));
            return Ok(c);
        } else if str_eq(t, "-t") || str_eq(t, "--target") {
            if i + 1 >= args.len() {
                assert(parse_from(toks, i as int, m) == Err::<ConfigModel, ()>(()));
                return Err(LauncherError::Argument);
            }
            let val = args_at(args, i + 1);
            target_base_dir = Some(String::from_str(val));
            i = i + 2;
            assert(parse_from(toks, i - 2, m) == parse_from(
                toks,
                i as int,
                loop_model(target_base_dir, suppress_open),
            ));
        } else if str_eq(t, "-o") || str_eq(t, "--only-build-target") {
            suppress_open = true;
            i = i + 1;
            assert(parse_from(toks, i - 1, m) == parse_from(
                toks,
                i as int,
                loop_model(target_base_dir, suppress_open),
            ));
        } else if str_eq(t, "--") {
            let project_dir: Option<String> = if i + 1 < args.len() {
                Some(String::from_str(args_at(args, i + 1)))
            } else {
                None
            };
            let c = ResolvedConfig { show_help: false, target_base_dir, suppress_open, project_dir };
            assert(parse_from(toks, i as int, m) == Ok::<ConfigModel, ()>(c@));
            return Ok(c);
        } else if t.unicode_len() >= 2 && t.get_char(0) == '-' {
            assert(is_opt_token(toks[i as int]));
            i = i + 1;
            assert(parse_from(toks, i - 1, m) == parse_from(
                toks,
                i as int,
                loop_model(target_base_dir, suppress_open),
            ));
        } else {
            assert(!is_opt_token(toks[i as int]));
            let c = ResolvedConfig {
                show_help: false,
                target_base_dir,
                suppress_open,
                project_dir: Some(String::from_str(t)),
            };
            assert(parse_from(toks, i as int, m) == Ok::<ConfigModel, ()>(c@));
            return Ok(c);
        }
    }
    let c = ResolvedConfig { show_help: false, target_base_dir, suppress_open, project_dir: None };
    assert(parse_from(toks, i as int, c@) == Ok::<ConfigModel, ()>(c@));
    Ok(c)
}

/// The configuration the parsing loop has resolved so far: help not yet
/// requested, no positional seen yet.
pub open spec fn loop_model(target_base_dir: Option<String>, suppress_open: bool) -> ConfigModel {
    ConfigModel {
        show_help: false,
        target_base_dir: opt_view(target_base_dir),
        suppress_open,
        project_dir: None,
    }
}

/// Borrows one argument token.
fn args_at(args: &Vec<String>, i: usize) -> (r: &str)
    requires
        i < args@.len(),
    ensures
        r@ == args@[i as int]@,
{
    args[i].as_str()
}

} // verus!
