//! The settings under which one file is lowered and emitted.
use vstd::prelude::*;

verus! {

/// How much debug information the back end emits.
#[derive(Clone, Copy, Debug, PartialEq, Eq, Structural)]
pub enum DebugInfo {
    Off,
    Full,
}

/// How hard the back end optimizes.
#[derive(Clone, Copy, Debug, PartialEq, Eq, Structural)]
pub enum OptLevel {
    Off,
    Less,
    Default,
    Aggressive,
}

/// The resolved settings of one compilation.
#[derive(Clone, Debug, PartialEq, Eq)]
pub struct CompileUnitInfo {
    pub debug_info: DebugInfo,
    pub optlevel: OptLevel,
    pub library: bool,
    pub output_file: String,
    pub output_asm: bool,
    pub output_ll: bool,
    pub output_mlir: bool,
}

/// The mathematical value of a [`CompileUnitInfo`].
pub struct CompileUnitInfoView {
    pub debug_info: DebugInfo,
    pub optlevel: OptLevel,
    pub library: bool,
    pub output_file: Seq<char>,
    pub output_asm: bool,
    pub output_ll: bool,
    pub output_mlir: bool,
}

impl View for CompileUnitInfo {
    type V = CompileUnitInfoView;

    open spec fn view(&self) -> CompileUnitInfoView {
        CompileUnitInfoView {
            debug_info: self.debug_info,
            optlevel: self.optlevel,
            library: self.library,
            output_file: self.output_file@,
            output_asm: self.output_asm,
            output_ll: self.output_ll,
            output_mlir: self.output_mlir,
        }
    }
}

/// The debug information for an explicit choice, or else for the kind of
/// build: a release build carries none, any other carries all of it.
pub open spec fn debug_info_of(choice: Option<bool>, release: bool) -> DebugInfo {
    match choice {
        Some(true) => DebugInfo::Full,
        Some(false) => DebugInfo::Off,
        None => if release {
            DebugInfo::Off
        } else {
            DebugInfo::Full
        },
    }
}

/// The optimization level for an explicit number, or else for the kind of
/// build. Every number above 2 asks for the most.
pub open spec fn optlevel_of(choice: Option<u8>, release: bool) -> OptLevel {
    match choice {
        Some(level) => if level == 0 {
            OptLevel::Off
        } else if level == 1 {
            OptLevel::Less
        } else if level == 2 {
            OptLevel::Default
        } else {
            OptLevel::Aggressive
        },
        None => if release {
            OptLevel::Aggressive
        } else {
            OptLevel::Off
        },
    }
}

impl DebugInfo {
    pub fn select(choice: Option<bool>, release: bool) -> (info: DebugInfo)
        ensures
            info == debug_info_of(choice, release),
    {
        match choice {
            Some(true) => DebugInfo::Full,
            Some(false) => DebugInfo::Off,
            None => if release {
                DebugInfo::Off
            } else {
                DebugInfo::Full
            },
        }
    }
}

impl OptLevel {
    pub fn select(choice: Option<u8>, release: bool) -> (level: OptLevel)
        ensures
            level == optlevel_of(choice, release),
    {
        match choice {
            Some(0) => OptLevel::Off,
            Some(1) => OptLevel::Less,
            Some(2) => OptLevel::Default,
            Some(_) => OptLevel::Aggressive,
            None => if release {
                OptLevel::Aggressive
            } else {
                OptLevel::Off
            },
        }
    }
}

} // verus!
