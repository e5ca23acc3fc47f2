use lua_parser::bindings::BindingMap;
use lua_parser::comment_parser;
use lua_parser::datatype_parsers::number_parser::parse_number;
use lua_parser::datatype_parsers::string_parser::parse_string;
use lua_parser::function_parser;
use lua_parser::function_parser::{parse_function, FunctionArguments};
use lua_parser::identifier_parser::{parse_identifier, Identifier, IdentifierValues};
use lua_parser::line_parser;
use lua_parser::table_parser::{parse_table, Table, TableMember, TableMemberType};
use lua_parser::types::Types;

fn float_of(value: &IdentifierValues) -> f32 {
    match value {
        IdentifierValues::Number(number) => number.text.parse::<f32>().unwrap(),
        other => panic!("not a number: {:?}", other),
    }
}

fn raw(member: &TableMember) -> &IdentifierValues {
    match &member.is_a {
        TableMemberType::RawType(value) => value,
        other => panic!("not a raw value: {:?}", other),
    }
}

fn nested(member: &TableMember) -> &Table {
    match &member.is_a {
        TableMemberType::NestedTable(table) => table,
        other => panic!("not a nested table: {:?}", other),
    }
}

fn bound<'a>(scope: &'a BindingMap, name: &str) -> &'a Identifier {
    match scope.get(name) {
        Some(identifier) => identifier,
        None => panic!("nothing is bound to {}", name),
    }
}

#[test]
fn test_parse_function() {
    let contents =
        "function test(a, b)\n    two = \"2\"\n    three = true\n    one = 1\n    four = {one = 1}\nend\n";
    let (remainder, function) = parse_function(contents).unwrap();
    println!("{:?}", function);
    assert_eq!(remainder, "end\n");
    assert_eq!(function.name, "test");
    assert_eq!(function.return_type, Types::Any);
    assert_eq!(
        function.arguments,
        vec![
            FunctionArguments {
                name: "a".to_string(),
                function_type: Types::Any
            },
            FunctionArguments {
                name: "b".to_string(),
                function_type: Types::Any
            }
        ]
    );
    assert_eq!(function.identifiers.len(), 4);

    let two = bound(&function.identifiers, "two");
    assert_eq!(two.name, "two");
    assert_eq!(two.value, IdentifierValues::String("2".to_string()));

    let three = bound(&function.identifiers, "three");
    assert_eq!(three.name, "three");
    assert_eq!(three.value, IdentifierValues::Bool(true));

    let one = bound(&function.identifiers, "one");
    assert_eq!(one.name, "one");
    assert_eq!(float_of(&one.value), 1.0);

    let four = bound(&function.identifiers, "four");
    assert_eq!(four.name, "four");
    match &four.value {
        IdentifierValues::Table(table) => {
            assert_eq!(table.name, "four");
            assert_eq!(table.members.len(), 1);
            assert_eq!(table.members[0].name, "one");
            assert_eq!(float_of(raw(&table.members[0])), 1.0);
        }
        other => panic!("not a table: {:?}", other),
    }
}

#[test]
fn test_parse_table() {
    let input = "{a=1,\nb = 3\nc=\"tom\",d=true\ne={a=2.}}";
    let (rest, table) = parse_table(input).unwrap();
    assert_eq!(rest, "");
    assert_eq!(table.name, "");
    let members = &table.members;
    assert_eq!(members.len(), 5);

    assert_eq!(members[0].name, "a");
    assert_eq!(float_of(raw(&members[0])), 1.0);

    assert_eq!(members[1].name, "b");
    assert_eq!(float_of(raw(&members[1])), 3.0);

    assert_eq!(
        members[2],
        TableMember {
            name: "c".to_string(),
            is_a: TableMemberType::RawType(IdentifierValues::String("tom".to_string()))
        }
    );
    assert_eq!(
        members[3],
        TableMember {
            name: "d".to_string(),
            is_a: TableMemberType::RawType(IdentifierValues::Bool(true))
        }
    );

    assert_eq!(members[4].name, "e");
    let inner = nested(&members[4]);
    assert_eq!(inner.name, "");
    assert_eq!(inner.members.len(), 1);
    assert_eq!(inner.members[0].name, "a");
    assert_eq!(float_of(raw(&inner.members[0])), 2.0);
}

#[test]
fn test_parse_function_definition_types() {
    let line = "function tester_function(one: boolean, two: number)";
    let (_, function) = function_parser::parse_function_definition(line).unwrap();
    assert_eq!(function.name, "tester_function");
    assert_eq!(
        function.arguments,
        vec![
            FunctionArguments {
                name: String::from("one"),
                function_type: Types::Boolean,
            },
            FunctionArguments {
                name: String::from("two"),
                function_type: Types::Number,
            }
        ]
    )
}

#[test]
fn test_parse_function_definition_any_types() {
    let line = "function tester_function(one, two)";
    let (_, function) = function_parser::parse_function_definition(line).unwrap();
    assert_eq!(function.name, "tester_function");
    assert_eq!(
        function.arguments,
        vec![
            FunctionArguments {
                name: String::from("one"),
                function_type: Types::Any,
            },
            FunctionArguments {
                name: String::from("two"),
                function_type: Types::Any,
            }
        ]
    )
}

#[test]
fn test_comment_line() {
    let line = "-- this is a comment\n";
    let (_, comment) = comment_parser::parse_comment_line(line).unwrap();
    assert_eq!(comment, " this is a comment");
}

#[test]
fn test_comment_block() {
    let block = "--[[ block comment block comment\nblock comment block\ncomment]]";
    let (_, comment) = comment_parser::parse_comment_block(block).unwrap();
    assert_eq!(
        comment,
        " block comment block comment\nblock comment block\ncomment"
    );
}

#[test]
fn test_multiline_identifiers() {
    let lines = "local test = 1\nlocal other_test = \"2\"\n";
    let (remaining_lines, line_1) = line_parser::parse_line(lines).unwrap();
    let (_remainder, identifier_1) = parse_identifier(line_1).unwrap();
    let (_, line_2) = line_parser::parse_line(remaining_lines).unwrap();
    let (_remainder, identifier_2) = parse_identifier(line_2).unwrap();
    assert_eq!(identifier_1.name, "test");
    assert_eq!(float_of(&identifier_1.value), 1 as f32);
    assert_eq!(identifier_2.name, "other_test");
    assert_eq!(
        identifier_2.value,
        IdentifierValues::String(String::from("2"))
    );
}

#[test]
fn test_line() {
    let lines = "local test = 1\nlocal other_test = 2\n";
    let (remaining_lines, line_1) = line_parser::parse_line(lines).unwrap();
    let (_, line_2) = line_parser::parse_line(remaining_lines).unwrap();
    assert_eq!(line_1, "local test = 1");
    assert_eq!(line_2, "local other_test = 2");
}

#[test]
fn test_identifier_number() {
    let identifier_string = "local test = 1";
    let (_remainder, identifier) = parse_identifier(identifier_string).unwrap();
    assert_eq!(identifier.name, "test");
    assert_eq!(float_of(&identifier.value), 1 as f32);
}

#[test]
fn test_identifier_string() {
    let identifier_string = "local test = \"tom\"";
    let (_remainder, identifier) = parse_identifier(identifier_string).unwrap();
    assert_eq!(identifier.name, "test");
    assert_eq!(
        identifier.value,
        IdentifierValues::String(String::from("tom"))
    );
}

#[test]
fn test_string() {
    let str = "\"string thing   thing\"";
    let (_, parsed_str) = parse_string(str).unwrap();
    assert_eq!(parsed_str, "string thing   thing");
}

#[test]
fn test_integer() {
    let int = "6";
    let (_, int_value) = parse_number(int).unwrap();
    assert_eq!(int_value.text.parse::<f32>().unwrap(), 6 as f32);
}

#[test]
fn test_float_with_dot() {
    let int = "6.";
    let (_, int_value) = parse_number(int).unwrap();
    assert_eq!(int_value.text.parse::<f32>().unwrap(), 6.);
}

#[test]
fn test_float_with_decimal() {
    let int = "6.160";
    let (_, int_value) = parse_number(int).unwrap();
    assert_eq!(int_value.text.parse::<f32>().unwrap(), 6.160);
}

#[test]
fn test_decimal() {
    let int = ".160";
    let (_, int_value) = parse_number(int).unwrap();
    assert_eq!(int_value.text.parse::<f32>().unwrap(), 0.160);
}

#[test]
fn test_decimal_leading_zero() {
    let int = "0.160";
    let (_, int_value) = parse_number(int).unwrap();
    assert_eq!(int_value.text.parse::<f32>().unwrap(), 0.160);
}
