//! The platform convention: the separator and quote characters that
//! `PATH`-style variables follow, and the fixed per-target constants.

use vstd::prelude::*;

verus! {

/// The family of conventions a target platform follows for `PATH`-style
/// variables: raw `:`-separated lists on POSIX, quote-aware `;`-separated
/// lists on Windows.
#[derive(Clone, Copy, Debug, PartialEq, Eq, Structural)]
pub enum Platform {
    Posix,
    Windows,
}

/// The list separator byte of the convention: `:` on POSIX, `;` on Windows.
pub open spec fn sep_byte(p: Platform) -> u8 {
    match p {
        Platform::Posix => 58,
        Platform::Windows => 59,
    }
}

/// The quote byte of the convention, when it has one: none on POSIX, `"` on
/// Windows.
pub open spec fn quote_byte(p: Platform) -> Option<u8> {
    match p {
        Platform::Posix => None,
        Platform::Windows => Some(34),
    }
}

impl Platform {
    /// The list separator byte of this platform's convention.
    pub fn separator(self) -> (r: u8)
        ensures
            r == sep_byte(self),
    {
        match self {
            Platform::Posix => 58,
            Platform::Windows => 59,
        }
    }

    /// The quote byte of this platform's convention, when it has one.
    pub fn quote(self) -> (r: Option<u8>)
        ensures
            r == quote_byte(self),
    {
        match self {
            Platform::Posix => None,
            Platform::Windows => Some(34),
        }
    }
}

/// The fixed strings a target is built with: CPU architecture, OS family and
/// name, and the filename affixes of shared libraries and executables. Pure
/// static lookups; the host supplies the values once, at startup.
pub struct TargetInfo {
    pub arch: &'static str,
    pub family: &'static str,
    pub os: &'static str,
    pub dll_prefix: &'static str,
    pub dll_suffix: &'static str,
    pub dll_extension: &'static str,
    pub exe_suffix: &'static str,
    pub exe_extension: &'static str,
}

/// A string describing the architecture of the CPU in use, such as `x86_64`.
pub fn arch(t: &TargetInfo) -> (r: &'static str)
    ensures
        r == t.arch,
{
    t.arch
}

/// The family of the operating system, such as `unix` or `windows`.
pub fn family(t: &TargetInfo) -> (r: &'static str)
    ensures
        r == t.family,
{
    t.family
}

/// A string describing the specific operating system, such as `linux`.
pub fn os(t: &TargetInfo) -> (r: &'static str)
    ensures
        r == t.os,
{
    t.os
}

/// The filename prefix of shared libraries on this platform, such as `lib`.
pub fn dll_prefix(t: &TargetInfo) -> (r: &'static str)
    ensures
        r == t.dll_prefix,
{
    t.dll_prefix
}

/// The filename suffix of shared libraries on this platform, such as `.so`.
pub fn dll_suffix(t: &TargetInfo) -> (r: &'static str)
    ensures
        r == t.dll_suffix,
{
    t.dll_suffix
}

/// The file extension of shared libraries on this platform, such as `so`.
pub fn dll_extension(t: &TargetInfo) -> (r: &'static str)
    ensures
        r == t.dll_extension,
{
    t.dll_extension
}

/// The filename suffix of executables on this platform, such as `.exe`.
pub fn exe_suffix(t: &TargetInfo) -> (r: &'static str)
    ensures
        r == t.exe_suffix,
{
    t.exe_suffix
}

/// The file extension of executables on this platform, such as `exe`.
pub fn exe_extension(t: &TargetInfo) -> (r: &'static str)
    ensures
        r == t.exe_extension,
{
    t.exe_extension
}

} // verus!
