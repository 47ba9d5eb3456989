//! Configuration of the native toolchain invocation that builds the emitted
//! translation unit, and the verified assembly of its command line.  Running
//! the toolchain itself is left to the caller.

use vstd::prelude::*;

verus! {

/// The selectable toolchains.
#[derive(Clone, Copy, Debug, PartialEq, Eq, Structural)]
pub enum Compiler {
    GXX,
}

/// The host-language standard level handed to the toolchain.
#[derive(Clone, Copy, Debug, PartialEq, Eq, Structural)]
pub enum STD {
    CXX98,
    CXX11,
    CXX14,
    CXX17,
    CXX20,
}

/// The optimization level handed to the toolchain.
#[derive(Clone, Copy, Debug, PartialEq, Eq, Structural)]
pub enum Optimization {
    Off,
    Size,
    Speed,
    Balanced,
}

/// A whole toolchain configuration.
#[derive(Clone, Copy, Debug, PartialEq, Eq, Structural)]
pub struct CompilationConfig {
    pub compiler: Compiler,
    pub standard: STD,
    pub optimization: Optimization,
}

impl Default for Compiler {
    fn default() -> (r: Self)
        ensures
            r == Compiler::GXX,
    {
        Compiler::GXX
    }
}

impl Default for STD {
    fn default() -> (r: Self)
        ensures
            r == STD::CXX17,
    {
        STD::CXX17
    }
}

impl Default for Optimization {
    fn default() -> (r: Self)
        ensures
            r == Optimization::Speed,
    {
        Optimization::Speed
    }
}

impl Default for CompilationConfig {
    fn default() -> (r: Self)
        ensures
            r == (CompilationConfig {
                compiler: Compiler::GXX,
                standard: STD::CXX17,
                optimization: Optimization::Speed,
            }),
    {
        CompilationConfig {
            compiler: Compiler::GXX,
            standard: STD::CXX17,
            optimization: Optimization::Speed,
        }
    }
}

/// The program name of a toolchain.
pub open spec fn compiler_name_text(c: Compiler) -> Seq<char> {
    match c {
        Compiler::GXX => "g++"@,
    }
}

/// The flag that selects a standard level.
pub open spec fn std_flag_text(s: STD) -> Seq<char> {
    match s {
        STD::CXX98 => "-std=c++98"@,
        STD::CXX11 => "-std=c++11"@,
        STD::CXX14 => "-std=c++14"@,
        STD::CXX17 => "-std=c++17"@,
        STD::CXX20 => "-std=c++20"@,
    }
}

/// The flag that selects an optimization level.
pub open spec fn opt_flag_text(o: Optimization) -> Seq<char> {
    match o {
        Optimization::Off => "-O0"@,
        Optimization::Size => "-Os"@,
        Optimization::Speed => "-Ofast"@,
        Optimization::Balanced => "-O2"@,
    }
}

pub fn compiler_name(c: &Compiler) -> (r: String)
    ensures
        r@ == compiler_name_text(*c),
{
    match c {
        Compiler::GXX => String::from_str("g++"),
    }
}

pub fn std_flag(s: &STD) -> (r: String)
    ensures
        r@ == std_flag_text(*s),
{
    match s {
        STD::CXX98 => String::from_str("-std=c++98"),
        STD::CXX11 => String::from_str("-std=c++11"),
        STD::CXX14 => String::from_str("-std=c++14"),
        STD::CXX17 => String::from_str("-std=c++17"),
        STD::CXX20 => String::from_str("-std=c++20"),
    }
}

pub fn optimization_flag(o: &Optimization) -> (r: String)
    ensures
        r@ == opt_flag_text(*o),
{
    match o {
        Optimization::Off => String::from_str("-O0"),
        Optimization::Size => String::from_str("-Os"),
        Optimization::Speed => String::from_str("-Ofast"),
        Optimization::Balanced => String::from_str("-O2"),
    }
}

/// The argument list of the toolchain invocation: the intermediate file,
/// the standard and optimization flags, the output selection, and warnings.
pub open spec fn compile_args_of(
    config: CompilationConfig,
    intermediate: Seq<char>,
    out: Seq<char>,
) -> Seq<Seq<char>> {
    seq![
        intermediate,
        std_flag_text(config.standard),
        opt_flag_text(config.optimization),
        "-o"@,
        out,
        "-Wall"@,
    ]
}

/// Assembles the full toolchain command for a configuration: the program
/// to run and its arguments, in order.
pub fn compile_command(
    config: &CompilationConfig,
    intermediate_file_path: &str,
    out_file_name: &str,
) -> (r: (String, Vec<String>))
    ensures
        r.0@ == compiler_name_text(config.compiler),
        r.1.deep_view() == compile_args_of(*config, intermediate_file_path@, out_file_name@),
{
    let mut args: Vec<String> = Vec::new();
    args.push(String::from_str(intermediate_file_path));
    args.push(std_flag(&config.standard));
    args.push(optimization_flag(&config.optimization));
    args.push(String::from_str("-o"));
    args.push(String::from_str(out_file_name));
    args.push(String::from_str("-Wall"));
    proof {
        assert(args.deep_view() =~= compile_args_of(
            *config,
            intermediate_file_path@,
            out_file_name@,
        ));
    }
    (compiler_name(&config.compiler), args)
}

} // verus!
