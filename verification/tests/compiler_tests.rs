use intlang::compiler::CompilationConfig;
use intlang::compiler::Compiler;
use intlang::compiler::Optimization;
use intlang::compiler::STD;
use intlang::compiler::compile_command;
use intlang::compiler::compiler_name;
use intlang::compiler::optimization_flag;
use intlang::compiler::std_flag;

#[test]
fn default_configuration() {
    let config = CompilationConfig::default();
    assert_eq!(config.compiler, Compiler::GXX);
    assert_eq!(config.standard, STD::CXX17);
    assert_eq!(config.optimization, Optimization::Speed);
}

#[test]
fn flag_spellings() {
    assert_eq!(compiler_name(&Compiler::GXX), "g++");
    assert_eq!(std_flag(&STD::CXX98), "-std=c++98");
    assert_eq!(std_flag(&STD::CXX11), "-std=c++11");
    assert_eq!(std_flag(&STD::CXX14), "-std=c++14");
    assert_eq!(std_flag(&STD::CXX17), "-std=c++17");
    assert_eq!(std_flag(&STD::CXX20), "-std=c++20");
    assert_eq!(optimization_flag(&Optimization::Off), "-O0");
    assert_eq!(optimization_flag(&Optimization::Size), "-Os");
    assert_eq!(optimization_flag(&Optimization::Speed), "-Ofast");
    assert_eq!(optimization_flag(&Optimization::Balanced), "-O2");
}

#[test]
fn full_command_line() {
    let config = CompilationConfig::default();
    let (program, args) = compile_command(&config, "/tmp/main_intermediate.cpp", "main.exe");
    assert_eq!(program, "g++");
    assert_eq!(
        args,
        vec![
            String::from("/tmp/main_intermediate.cpp"),
            String::from("-std=c++17"),
            String::from("-Ofast"),
            String::from("-o"),
            String::from("main.exe"),
            String::from("-Wall"),
        ]
    );
}
