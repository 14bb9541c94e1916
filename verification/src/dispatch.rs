//! The launch dispatcher: turns a resolved configuration into the final
//! shape of the launch — help text, or an editor invocation with an
//! optional build-directory environment override and an optional
//! directory argument. Spawning the process is left to the caller.

use crate::args::{ConfigModel, ResolvedConfig};
use crate::errors::LauncherError;
use crate::paths::base_name_ok;
use crate::resolve::{resolve_build_dir, spec_resolve};
use vstd::prelude::*;
use vstd::string::*;

verus! {

/// What one invocation is to do.
#[derive(Debug, PartialEq, Eq)]
pub enum LaunchPlan {
    /// Show the usage text and exit successfully; nothing is launched.
    ShowHelp,
    /// Launch the editor.
    Launch {
        /// The build-directory override to put in the child's environment,
        /// set exactly when a project directory was given.
        env_override: Option<String>,
        /// The directory argument to pass, unless suppressed or absent.
        open_arg: Option<String>,
    },
}

/// The base directory the resolver uses: the explicit `--target` value
/// when one was given, else the default handed in by the caller.
pub open spec fn effective_base(m: ConfigModel, default_base: Seq<char>) -> Seq<char> {
    match m.target_base_dir {
        Some(t) => t,
        None => default_base,
    }
}

/// Decides the final launch shape for a resolved configuration.
///
/// With help requested nothing is launched. With a project directory, the
/// build directory is resolved under the effective base and becomes the
/// environment override, and the directory itself is passed along unless
/// suppressed. With no project directory the editor is launched bare: no
/// override, no argument. The only failure is an invalid project path.
pub fn plan_launch(cfg: &ResolvedConfig, default_base: &str) -> (r: Result<
    LaunchPlan,
    LauncherError,
>)
    ensures
        r is Err <==> (!cfg@.show_help && cfg@.project_dir is Some && !base_name_ok(
            cfg@.project_dir->0,
        )),
        r is Err ==> r == Err::<LaunchPlan, LauncherError>(LauncherError::InvalidPath),
        cfg@.show_help ==> (r matches Ok(p) && p is ShowHelp),
        (!cfg@.show_help && cfg@.project_dir is None) ==> (r matches Ok(p) && (p matches
        LaunchPlan::Launch { env_override, open_arg } && env_override is None && open_arg is None)),
        (!cfg@.show_help && cfg@.project_dir is Some && base_name_ok(cfg@.project_dir->0)) ==> (
        r matches Ok(p) && (p matches LaunchPlan::Launch { env_override, open_arg } && (
        env_override matches Some(e) && e@ == spec_resolve(
            cfg@.project_dir->0,
            effective_base(cfg@, default_base@),
        )) && (if cfg@.suppress_open {
            open_arg is None
        } else {
            open_arg matches Some(a) && a@ == cfg@.project_dir->0
        }))),
{
    if cfg.show_help {
        return Ok(LaunchPlan::ShowHelp);
    }
    match &cfg.project_dir {
        None => Ok(LaunchPlan::Launch { env_override: None, open_arg: None }),
        Some(d) => {
            let base: &str = match &cfg.target_base_dir {
                Some(t) => t.as_str(),
                None => default_base,
            };
            let build = match resolve_build_dir(d.as_str(), base) {
                Ok(b) => b,
                Err(e) => {
                    return Err(e);
                },
            };
            let open_arg: Option<String> = if cfg.suppress_open {
                None
            } else {
                Some(d.clone())
            };
            Ok(LaunchPlan::Launch { env_override: Some(build), open_arg })
        },
    }
}

/// The usage text shown when help is requested.
pub open spec fn usage_text() -> Seq<char> {
    "Usage: vscode-custom-build-launcher [OPTIONS] <DIR>\n\nThis will launch VsCode with the CARGO_BUILD_TARGET_DIR env var set to the input directory. By default, it will use TMP to calculate the path to the custom build directory, but you can change this below with a flag\n\nOptions:\n  -h, --help\n      print this help\n  -t, --target <VAL>\n      custom target build directory (instead of TMP)\n  -o, --only-build-target\n      when specifying DIR, only set CARGO_BUILD_TARGET_DIR;\n      do not open the directory in vscode\n\nPositional:\n  DIR\n      the initial directory used for setting the custom build directory.\n      if this is omitted, it will start vscode without any specific directory"@
}

/// Renders the usage text.
pub fn display_help() -> (r: String)
    ensures
        r@ == usage_text(),
{
    String::from_str(
        "Usage: vscode-custom-build-launcher [OPTIONS] <DIR>\n\nThis will launch VsCode with the CARGO_BUILD_TARGET_DIR env var set to the input directory. By default, it will use TMP to calculate the path to the custom build directory, but you can change this below with a flag\n\nOptions:\n  -h, --help\n      print this help\n  -t, --target <VAL>\n      custom target build directory (instead of TMP)\n  -o, --only-build-target\n      when specifying DIR, only set CARGO_BUILD_TARGET_DIR;\n      do not open the directory in vscode\n\nPositional:\n  DIR\n      the initial directory used for setting the custom build directory.\n      if this is omitted, it will start vscode without any specific directory",
    )
}

} // verus!
