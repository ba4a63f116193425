use c_emit::{CArg, Code, VarInit, VarTypes};

#[test]
fn test_empty() {
    let code = Code::new();

    assert_eq!(code.to_string(), "int main() {\nreturn 0;\n}\n");
}

#[test]
fn test_exit_zero() {
    let mut code = Code::new();

    code.exit(0);

    assert_eq!(code.to_string(), "int main() {\nreturn 0;\n}\n");
}

#[test]
fn test_exit_non_zero() {
    let mut code = Code::new();

    code.exit(1);

    assert_eq!(code.to_string(), "int main() {\nreturn 1;\n}\n");
}

#[test]
fn test_multiple_exits() {
    let mut code = Code::new();

    code.exit(0);
    code.exit(1);

    assert_eq!(code.to_string(), "int main() {\nreturn 1;\n}\n");
}

#[test]
fn test_include_valid() {
    let mut code = Code::new();

    code.add_inclusion("stdio.h");

    assert!(code.to_string().contains("#include<stdio.h>"));
}

#[test]
fn test_func_no_args() {
    let mut code = Code::new();

    code.call_func("printf");

    assert!(code.to_string().contains("printf();"));
}

#[test]
fn test_func_with_args() {
    let mut code = Code::new();

    code.call_func_with_args("printf", vec![CArg::String("Hello")]);

    assert!(code.to_string().contains("printf(\"Hello\");"));
}

#[test]
fn test_variable_string() {
    let mut code = Code::new();

    code.new_var("msg", VarInit::String("Hello"));

    assert!(code.to_string().contains("char msg[]=\"Hello\";"));
}

#[test]
fn test_variable_i32() {
    let mut code = Code::new();

    code.new_var("num", VarInit::Int32(i32::MAX));

    assert!(code
        .to_string()
        .contains(format!("int num={};", i32::MAX).as_str()));
}

#[test]
fn test_variable_i64() {
    let mut code = Code::new();

    code.new_var("num", VarInit::Int64(i64::MAX));

    assert!(code
        .to_string()
        .contains(format!("int num={};", i64::MAX).as_str()));
}

#[test]
fn test_variable_float() {
    let mut code = Code::new();
    let numeral = f32::MAX.to_string();

    code.new_var("num", VarInit::Float(numeral.as_str()));

    assert!(code
        .to_string()
        .contains(format!("float num={};", f32::MAX).as_str()));
}

#[test]
fn test_variable_double() {
    let mut code = Code::new();
    let numeral = f64::MAX.to_string();

    code.new_var("num", VarInit::Double(numeral.as_str()));

    assert!(code
        .to_string()
        .contains(format!("double num={};", f64::MAX).as_str()));
}

#[test]
fn test_variable_bool() {
    let mut code = Code::new();

    code.new_var("b", VarInit::Bool(true));

    assert!(code.to_string().contains("bool b=true;"));
}

#[test]
fn test_variable_char() {
    let mut code = Code::new();

    code.new_var("c", VarInit::Char('c'));

    assert!(code.to_string().contains("char c='c';"));
}

#[test]
fn test_variable_size_string() {
    let mut code = Code::new();

    code.new_var("msg", VarInit::SizeString(5));

    assert!(code.to_string().contains("char msg[5];"));
}

#[test]
fn test_variable_ident() {
    let mut code = Code::new();

    code.new_var("s", VarInit::String("X"));
    code.new_var("t", VarInit::Ident(VarTypes::String, "s"));

    assert!(code.to_string().contains("char s[]=\"X\";\nchar t[]=s;"));
}
