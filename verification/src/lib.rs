//! Inspection and manipulation of a process's environment: variables,
//! arguments, well-known directories, and the platform conventions for
//! `PATH`-style lists of paths.
//!
//! The crate models the pieces of a process environment as plain values: a
//! [`NativeString`] is an arbitrary byte sequence as the operating system
//! hands it out, an [`EnvSnapshot`] is a point-in-time capture of the
//! variable set, and a [`Platform`] carries the separator and quoting
//! convention that `PATH`-style variables follow. Host-specific calls
//! (capturing the live environment, applying mutations to it, resolving
//! directories) stay outside; everything that computes on the captured
//! values is specified and verified here.

pub mod arguments;
pub mod environ;
pub mod native;
pub mod pathlist;
pub mod platform;

pub use arguments::{args, args_os, try_args, Args, ArgsOs};
pub use environ::{
    home_dir, remove_var, set_var, temp_dir, try_vars, var, var_os, vars, vars_os, EnvSnapshot,
    VarError, Vars, VarsOs,
};
pub use native::NativeString;
pub use pathlist::{join_paths, split_paths, JoinPathsError, SplitPaths};
pub use platform::{
    arch, dll_extension, dll_prefix, dll_suffix, exe_extension, exe_suffix, family, os, Platform,
    TargetInfo,
};
