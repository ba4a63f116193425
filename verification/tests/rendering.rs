use c_emit::{CArg, Code, VarInit, VarTypes};

#[test]
fn default_is_the_empty_program() {
    let code = Code::default();

    assert_eq!(code.to_string(), "int main() {\nreturn 0;\n}\n");
}

#[test]
fn exit_overwrite_never_shows_the_first_value() {
    let mut code = Code::new();

    code.exit(0);
    code.exit(1);

    let text = code.to_string();
    assert!(text.contains("return 1;"));
    assert!(!text.contains("return 0;"));
}

#[test]
fn exit_negative_and_extreme_values() {
    let mut code = Code::new();

    code.exit(-1);
    assert_eq!(code.to_string(), "int main() {\nreturn -1;\n}\n");

    code.exit(i32::MIN);
    assert_eq!(code.to_string(), "int main() {\nreturn -2147483648;\n}\n");

    code.exit(i32::MAX);
    assert_eq!(code.to_string(), "int main() {\nreturn 2147483647;\n}\n");
}

#[test]
fn inclusion_added_twice_renders_once() {
    let mut code = Code::new();

    code.add_inclusion("stdio.h");
    code.add_inclusion("stdio.h");

    assert_eq!(
        code.to_string(),
        "#include<stdio.h>\nint main() {\nreturn 0;\n}\n"
    );
}

#[test]
fn inclusion_keeps_the_place_of_its_first_addition() {
    let mut code = Code::new();

    code.add_inclusion("stdio.h");
    code.add_inclusion("stdlib.h");
    code.add_inclusion("stdio.h");
    code.add_inclusion("string.h");
    code.add_inclusion("stdlib.h");

    assert_eq!(
        code.to_string(),
        "#include<stdio.h>\n#include<stdlib.h>\n#include<string.h>\nint main() {\nreturn 0;\n}\n"
    );
}

#[test]
fn inclusion_names_are_compared_by_their_whole_text() {
    let mut code = Code::new();

    code.add_inclusion("std.h");
    code.add_inclusion("std.hh");
    code.add_inclusion("st.h");
    code.add_inclusion("");
    code.add_inclusion("");

    assert_eq!(
        code.to_string(),
        "#include<std.h>\n#include<std.hh>\n#include<st.h>\n#include<>\nint main() {\nreturn 0;\n}\n"
    );
}

#[test]
fn call_with_no_arguments_is_the_plain_call() {
    let mut with_args = Code::new();
    let mut plain = Code::new();

    with_args.call_func_with_args("f", vec![]);
    plain.call_func("f");

    assert_eq!(with_args.to_string(), plain.to_string());
    assert_eq!(plain.to_string(), "int main() {\nf();\nreturn 0;\n}\n");
}

#[test]
fn call_with_two_strings_has_one_comma() {
    let mut code = Code::new();

    code.call_func_with_args("printf", vec![CArg::String("%s"), CArg::String("x")]);

    assert_eq!(
        code.to_string(),
        "int main() {\nprintf(\"%s\",\"x\");\nreturn 0;\n}\n"
    );
}

#[test]
fn call_with_every_kind_of_argument() {
    let mut code = Code::new();

    code.call_func_with_args(
        "f",
        vec![
            CArg::String("s"),
            CArg::Ident("x"),
            CArg::Int32(-7),
            CArg::Int64(i64::MIN),
            CArg::Float("1.5"),
            CArg::Double("2.25"),
            CArg::Bool(true),
            CArg::Bool(false),
            CArg::Char('c'),
        ],
    );

    assert_eq!(
        code.to_string(),
        "int main() {\nf(\"s\",x,-7,-9223372036854775808,1.5,2.25,true,false,'c');\nreturn 0;\n}\n"
    );
}

#[test]
fn call_with_a_name_that_ends_in_a_comma() {
    let mut code = Code::new();

    code.call_func_with_args("f,", vec![]);
    code.call_func_with_args("g", vec![CArg::Ident("a,")]);

    assert_eq!(
        code.to_string(),
        "int main() {\nf,();\ng(a,);\nreturn 0;\n}\n"
    );
}

#[test]
fn string_argument_is_escaped() {
    let literal = "a\r\nb\nc\td\"e\rf\\g";
    let mut code = Code::new();

    code.call_func_with_args("puts", vec![CArg::String(literal)]);

    let text = code.to_string();
    assert_eq!(
        text,
        "int main() {\nputs(\"a\\r\\nb\\nc\\td\\\"e\rf\\g\");\nreturn 0;\n}\n"
    );

    let escaped = "a\\r\\nb\\nc\\td\\\"e\rf\\g";
    let back = escaped
        .replace("\\r\\n", "\r\n")
        .replace("\\n", "\n")
        .replace("\\t", "\t")
        .replace("\\\"", "\"");
    assert_eq!(back, literal);
}

#[test]
fn string_argument_matches_the_four_substitutions_in_order() {
    let samples = [
        "",
        "\r",
        "\n",
        "\r\n",
        "\r\r\n",
        "\r\n\n",
        "\n\r",
        "\t\"",
        "\\n",
        "\\\r\n",
        "plain",
        "tab\there",
        "caf\u{e9} \u{1f600}\r\n",
    ];
    for sample in samples {
        let expected = sample
            .replace("\r\n", "\\r\\n")
            .replace('\n', "\\n")
            .replace('\t', "\\t")
            .replace('"', "\\\"");
        let mut code = Code::new();
        code.call_func_with_args("f", vec![CArg::String(sample)]);
        assert_eq!(
            code.to_string(),
            format!("int main() {{\nf(\"{}\");\nreturn 0;\n}}\n", expected)
        );
    }
}

#[test]
fn string_variable_is_escaped() {
    let mut code = Code::new();

    code.new_var("msg", VarInit::String("a\"b\n"));

    assert_eq!(
        code.to_string(),
        "int main() {\nchar msg[]=\"a\\\"b\\n\";\nreturn 0;\n}\n"
    );
}

#[test]
fn declaration_of_every_kind() {
    let mut code = Code::new();

    code.new_var("a", VarInit::String("s"));
    code.new_var("b", VarInit::Int32(i32::MIN));
    code.new_var("c", VarInit::Int64(i64::MIN));
    code.new_var("d", VarInit::Float("0.5"));
    code.new_var("e", VarInit::Double("-3"));
    code.new_var("f", VarInit::Char('\''));
    code.new_var("g", VarInit::SizeString(0));
    code.new_var("h", VarInit::SizeString(1024));

    assert_eq!(
        code.to_string(),
        "int main() {\n\
         char a[]=\"s\";\n\
         int b=-2147483648;\n\
         int c=-9223372036854775808;\n\
         float d=0.5;\n\
         double e=-3;\n\
         char f=''';\n\
         char g[0];\n\
         char h[1024];\n\
         return 0;\n}\n"
    );
}

#[test]
fn declaration_from_an_identifier_of_every_type() {
    let mut code = Code::new();

    code.new_var("a", VarInit::Ident(VarTypes::String, "s"));
    code.new_var("b", VarInit::Ident(VarTypes::Int32, "i"));
    code.new_var("c", VarInit::Ident(VarTypes::Int64, "l"));
    code.new_var("d", VarInit::Ident(VarTypes::Float, "x"));
    code.new_var("e", VarInit::Ident(VarTypes::Double, "y"));
    code.new_var("f", VarInit::Ident(VarTypes::Char, "z"));

    assert_eq!(
        code.to_string(),
        "int main() {\n\
         char a[]=s;\n\
         int b=i;\n\
         int c=l;\n\
         float d=x;\n\
         double e=y;\n\
         char f=z;\n\
         return 0;\n}\n"
    );
}

#[test]
fn size_string_of_the_largest_size() {
    let mut code = Code::new();

    code.new_var("buf", VarInit::SizeString(usize::MAX));

    assert_eq!(
        code.to_string(),
        format!("int main() {{\nchar buf[{}];\nreturn 0;\n}}\n", usize::MAX)
    );
}

#[test]
fn boolean_declaration_names_stdbool_once() {
    let mut code = Code::new();

    code.new_var("a", VarInit::Bool(true));
    code.new_var("b", VarInit::Bool(false));
    code.new_var("c", VarInit::Ident(VarTypes::Bool, "a"));
    code.add_inclusion("stdbool.h");

    assert_eq!(
        code.to_string(),
        "#include<stdbool.h>\nint main() {\nbool a=true;\nbool b=false;\nbool c=a;\nreturn 0;\n}\n"
    );
}

#[test]
fn boolean_declaration_after_explicit_inclusion() {
    let mut code = Code::new();

    code.add_inclusion("stdbool.h");
    code.add_inclusion("stdio.h");
    code.new_var("c", VarInit::Ident(VarTypes::Bool, "true"));

    assert_eq!(
        code.to_string(),
        "#include<stdbool.h>\n#include<stdio.h>\nint main() {\nbool c=true;\nreturn 0;\n}\n"
    );
}

#[test]
fn other_declarations_name_no_header() {
    let mut code = Code::new();

    code.new_var("a", VarInit::Int32(1));
    code.new_var("b", VarInit::Ident(VarTypes::Char, "a"));

    assert!(!code.to_string().contains("#"));
}

#[test]
fn render_twice_gives_the_same_text() {
    let mut code = Code::new();

    code.add_inclusion("stdio.h");
    code.new_var("ok", VarInit::Bool(true));
    code.call_func_with_args("printf", vec![CArg::String("%d\n"), CArg::Ident("ok")]);
    code.exit(3);

    let first = code.to_string();
    let second = code.to_string();
    assert_eq!(first, second);
    assert!(first.ends_with("}\n"));
    assert!(!first.ends_with("\n\n"));
}

#[test]
fn end_to_end() {
    let mut code = Code::new();

    code.add_inclusion("stdio.h");
    code.call_func_with_args("printf", vec![CArg::String("Hello World!")]);
    code.exit(1);

    assert_eq!(
        code.to_string(),
        "#include<stdio.h>\nint main() {\nprintf(\"Hello World!\");\nreturn 1;\n}\n"
    );
}

#[test]
fn statements_keep_the_order_of_the_calls() {
    let mut code = Code::new();

    code.call_func_with_args("printf", vec![CArg::String("Hello World!")]);
    code.new_var("a", VarInit::SizeString(5));
    code.call_func_with_args("scanf", vec![CArg::String("%s"), CArg::Ident("a")]);
    code.add_inclusion("stdio.h");
    code.call_func("getchar");

    assert_eq!(
        code.to_string(),
        "#include<stdio.h>\nint main() {\nprintf(\"Hello World!\");\nchar a[5];\nscanf(\"%s\",a);\ngetchar();\nreturn 0;\n}\n"
    );
}
