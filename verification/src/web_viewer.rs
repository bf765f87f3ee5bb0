//! How the web viewer is built.

use crate::table;
use crate::text;
use vstd::prelude::*;

verus! {

/// What the build of the web viewer is asked for.
#[derive(Debug)]
pub struct Args {
    /// Compile for release and run wasm-opt. Mutually exclusive with `debug`.
    pub release: bool,
    /// Compile for debug and don't run wasm-opt. Mutually exclusive with `release`.
    pub debug: bool,
    /// Keep debug symbols, even in release builds.
    pub debug_symbols: bool,
    /// The output directory, relative to the workspace root.
    pub build_dir: Option<String>,
    /// The package that holds the library to build.
    pub package: String,
    /// The output stem. The name of the library if there is none.
    pub out_name: Option<String>,
    /// Comma-separated list of features.
    pub features: Option<String>,
    /// Whether to leave out the default features.
    pub no_default_features: bool,
    /// Whether to report how long each step took.
    pub timings: bool,
}

#[derive(Clone, Copy, Debug, PartialEq, Eq, Structural)]
pub enum Profile {
    WebRelease,
    Debug,
}

pub fn default_package() -> (r: String)
    ensures
        r@ == "re_viewer"@,
{
    "re_viewer".to_owned()
}

/// What is built, and how.
#[derive(Debug)]
pub struct BuildPlan {
    pub profile: Profile,
    pub build_dir: String,
    pub features: String,
}

/// The features that a package is built with.
pub open spec fn chosen_features(asked: Option<Seq<char>>, package: Seq<char>) -> Seq<char> {
    match asked {
        Some(f) => f,
        None => if package == "re_viewer"@ {
            "analytics"@
        } else {
            ""@
        },
    }
}

/// Settles what the arguments leave open.
pub fn plan_build(args: &Args, default_build_dir: &str) -> (r: Result<BuildPlan, String>)
    ensures
        match r {
            Ok(plan) => {
                &&& args.release != args.debug
                &&& plan.profile == if args.release {
                    Profile::WebRelease
                } else {
                    Profile::Debug
                }
                &&& plan.build_dir@ == match args.build_dir {
                    Some(d) => d@,
                    None => default_build_dir@,
                }
                &&& plan.features@ == chosen_features(
                    table::view_option(args.features),
                    args.package@,
                )
            },
            Err(e) => args.release == args.debug && e@
                == "Exactly one of --release or --debug must be set"@,
        },
{
    let profile = if args.release && !args.debug {
        Profile::WebRelease
    } else if !args.release && args.debug {
        Profile::Debug
    } else {
        return Err("Exactly one of --release or --debug must be set".to_owned());
    };
    let build_dir = match &args.build_dir {
        Some(d) => d.clone(),
        None => default_build_dir.to_owned(),
    };
    let features = match &args.features {
        Some(f) => f.clone(),
        None => if text::same(args.package.as_str(), default_package().as_str()) {
            "analytics".to_owned()
        } else {
            "".to_owned()
        },
    };
    Ok(BuildPlan { profile, build_dir, features })
}

} // verus!
