//! The grammar once more, written with parser combinators, and the library
//! held against it on sample texts: both must accept the same texts, yield
//! equal values and leave the same text over.

use lua_parser::bindings::BindingMap;
use lua_parser::block_parser::{parse_block, Block, BlockType};
use lua_parser::comment_parser::{parse_comment_block, parse_comment_line};
use lua_parser::datatype_parsers::boolean_parser::parse_boolean;
use lua_parser::datatype_parsers::number_parser::{parse_number, NumberLiteral};
use lua_parser::datatype_parsers::string_parser::parse_string;
use lua_parser::identifier_parser::{
    parse_equals, parse_identifier, parse_identifier_value, parse_local, parse_name,
    parse_return, Identifier, IdentifierValues,
};
use lua_parser::line_parser::parse_line;
use lua_parser::table_parser::{parse_table, Table, TableMember, TableMemberType};
use nom::branch::alt;
use nom::bytes::complete::{tag, tag_no_case, take, take_until};
use nom::character::complete::{alpha1, alphanumeric1, char, multispace0, one_of, space1};
use nom::combinator::{opt, recognize, verify};
use nom::multi::{many0, many0_count, many1};
use nom::sequence::{delimited, pair, preceded, terminated, tuple};
use nom::IResult;

fn boolean(input: &str) -> IResult<&str, bool> {
    alt((
        nom::combinator::map(tag_no_case("true"), |_| true),
        nom::combinator::map(tag_no_case("false"), |_| false),
    ))(input)
}

fn decimal(input: &str) -> IResult<&str, &str> {
    recognize(many1(terminated(one_of("0123456789"), many0(char('_')))))(input)
}

fn number(input: &str) -> IResult<&str, NumberLiteral> {
    nom::combinator::map(
        alt((
            recognize(tuple((
                char('.'),
                decimal,
                opt(tuple((one_of("eE"), opt(one_of("+-")), decimal))),
            ))),
            recognize(tuple((
                decimal,
                opt(preceded(char('.'), decimal)),
                one_of("eE"),
                opt(one_of("+-")),
                decimal,
            ))),
            recognize(tuple((decimal, char('.'), opt(decimal)))),
            recognize(decimal),
        )),
        |text: &str| NumberLiteral {
            text: text.replace('_', ""),
        },
    )(input)
}

fn string(input: &str) -> IResult<&str, String> {
    nom::combinator::map(
        delimited(char('"'), take_until("\""), char('"')),
        |text: &str| text.to_string(),
    )(input)
}

fn word(input: &str) -> IResult<&str, &str> {
    recognize(pair(
        alt((alpha1, tag("_"))),
        many0_count(alt((alphanumeric1, tag("_")))),
    ))(input)
}

fn name(input: &str) -> IResult<&str, &str> {
    verify(word, |w: &str| w != "function")(input)
}

fn equals(input: &str) -> IResult<&str, &str> {
    recognize(many0_count(alt((tag(" "), tag("=")))))(input)
}

fn return_statement(input: &str) -> IResult<&str, &str> {
    recognize(pair(tuple((tag("return"), multispace0)), word))(input)
}

fn local(input: &str) -> IResult<&str, (&str, &str)> {
    pair(tag("local"), tag(" "))(input)
}

fn value(input: &str) -> IResult<&str, IdentifierValues> {
    alt((
        nom::combinator::map(string, IdentifierValues::String),
        nom::combinator::map(number, IdentifierValues::Number),
        nom::combinator::map(boolean, IdentifierValues::Bool),
        nom::combinator::map(table, IdentifierValues::Table),
        nom::combinator::map(return_statement, |text| {
            IdentifierValues::Return(text.to_string())
        }),
    ))(input)
}

fn member(input: &str) -> IResult<&str, TableMember> {
    nom::combinator::map(
        tuple((name, equals, value, opt(tag(",")))),
        |(name, _, value, _)| TableMember {
            name: name.to_string(),
            is_a: match value {
                IdentifierValues::Table(t) => TableMemberType::NestedTable(t),
                other => TableMemberType::RawType(other),
            },
        },
    )(input)
}

fn table(input: &str) -> IResult<&str, Table> {
    nom::combinator::map(
        delimited(
            tag("{"),
            many0(delimited(multispace0, member, multispace0)),
            tag("}"),
        ),
        |members| Table {
            name: String::new(),
            members,
        },
    )(input)
}

fn bind(name: Option<&str>, value: IdentifierValues) -> Option<Identifier> {
    Some(match value {
        IdentifierValues::Return(text) => Identifier {
            name: "Return".to_string(),
            value: IdentifierValues::Return(text),
        },
        IdentifierValues::Table(t) => Identifier {
            name: name?.to_string(),
            value: IdentifierValues::Table(Table {
                name: name?.to_string(),
                members: t.members,
            }),
        },
        other => Identifier {
            name: name?.to_string(),
            value: other,
        },
    })
}

fn named(input: &str) -> Option<(&str, Identifier)> {
    let (rest, (name, _, value, _)) = tuple((name, equals, value, multispace0))(input).ok()?;
    Some((rest, bind(Some(name), value)?))
}

fn bare(input: &str) -> Option<(&str, Identifier)> {
    let (rest, (value, _)) = tuple((value, multispace0))(input).ok()?;
    Some((rest, bind(None, value)?))
}

fn identifier(input: &str) -> Option<(&str, Identifier)> {
    let (at_name, _) = opt(local)(input).ok()?;
    named(at_name).or_else(|| bare(at_name))
}

fn comment_line(input: &str) -> IResult<&str, &str> {
    nom::combinator::map(
        preceded(tag("--"), tuple((take_until("\n"), take(1u16)))),
        |(text, _)| text,
    )(input)
}

fn comment_block(input: &str) -> IResult<&str, &str> {
    nom::combinator::map(
        preceded(tag("--[["), tuple((take_until("]]"), take(2u16)))),
        |(text, _)| text,
    )(input)
}

fn line(input: &str) -> IResult<&str, &str> {
    nom::combinator::map(
        delimited(
            multispace0,
            tuple((take_until("\n"), take(1u16))),
            multispace0,
        ),
        |(text, _)| text,
    )(input)
}

const LITERALS: [&str; 46] = [
    "",
    "0",
    "42",
    "42 ",
    "007",
    "4_2",
    "4__2_",
    "_42",
    "42.",
    "42.5",
    "42._5",
    "42.5_",
    "4_2.5_0",
    ".5",
    ".5e3",
    ".5e",
    ".5E+3",
    ".5e-",
    "._5",
    ".",
    "..5",
    "1e5",
    "1E5",
    "1e+5",
    "1e-5_0",
    "1e",
    "1e+",
    "1.e5",
    "1.5e5",
    "1.5e5.5",
    "1.5.5",
    "12ab",
    "1 2",
    "e5",
    "-1",
    "+1",
    "\u{663}",
    "true",
    "TRUE",
    "tRuE!",
    "false",
    "False positives",
    "fals",
    "tru",
    "truefalse",
    "\u{212a}",
];

const TEXTS: [&str; 40] = [
    "",
    " ",
    "x",
    "x = 1",
    "x=1",
    "x 1",
    "x == = 1 rest",
    "x = ",
    "_x9 = \"nine\"",
    "local x = 1",
    "local  x = 1",
    "localx = 1",
    "local = 1",
    "local local = 1",
    "x = true",
    "x = truth",
    "x = \"a\" \n\t y = 2",
    "x = \"unclosed",
    "x = {}",
    "x = { }",
    "x = {a=1}",
    "x = {a=1,}",
    "x = {a=1,,}",
    "x = { a = 1 , b = 2 }",
    "x = {a=1\n\nb=2}",
    "x = {a={b={c=\"d\"}}, e = .5e1}",
    "x = {a={b={c=\"d\"}}",
    "x = {a=1 b}",
    "x = {1}",
    "x = return y",
    "x = returny",
    "x = return 1",
    "return x",
    "{a=1}",
    "= 1",
    "1",
    "x = 1_0.0_1e0_1",
    "x\t= 1",
    "x = \u{e9}",
    "\u{e9} = 1",
];

const LINES: [&str; 16] = [
    "",
    "\n",
    "a\n",
    "a",
    "  a \n  b\n",
    "\n\n a\n\n\n b",
    "-- c\n",
    "--\n",
    "-- c",
    "--- c\nrest",
    "- c\n",
    "--[[ c ]]",
    "--[[ c\n d ]] rest",
    "--[[]]",
    "--[[ c ]",
    "--[ c ]]",
];

#[test]
fn booleans_agree() {
    for text in LITERALS.iter().chain(TEXTS.iter()) {
        assert_eq!(parse_boolean(text).ok(), boolean(text).ok(), "{:?}", text);
    }
}

#[test]
fn numbers_agree() {
    for text in LITERALS.iter().chain(TEXTS.iter()) {
        assert_eq!(parse_number(text).ok(), number(text).ok(), "{:?}", text);
    }
}

#[test]
fn strings_agree() {
    for text in LITERALS.iter().chain(TEXTS.iter()) {
        assert_eq!(parse_string(text).ok(), string(text).ok(), "{:?}", text);
    }
    for text in ["\"\"", "\"a\"", "\"a\" b \"c\"", "\"a", "\"\u{e9}\u{4e16}\" x", "\"\\\"\""] {
        assert_eq!(parse_string(text).ok(), string(text).ok(), "{:?}", text);
    }
}

#[test]
fn names_agree() {
    for text in LITERALS.iter().chain(TEXTS.iter()) {
        assert_eq!(parse_name(text).ok(), name(text).ok(), "{:?}", text);
    }
    for text in ["function", "function f", "functions", "a_b_c d", "A9", "9A", "__"] {
        assert_eq!(parse_name(text).ok(), name(text).ok(), "{:?}", text);
    }
}

#[test]
fn separators_agree() {
    for text in LITERALS.iter().chain(TEXTS.iter()) {
        assert_eq!(parse_equals(text).ok(), equals(text).ok(), "{:?}", text);
    }
    for text in ["=", " ", "= = =x", "==\t=", " =\n="] {
        assert_eq!(parse_equals(text).ok(), equals(text).ok(), "{:?}", text);
    }
}

#[test]
fn local_prefixes_agree() {
    for text in LITERALS.iter().chain(TEXTS.iter()) {
        assert_eq!(parse_local(text).ok(), local(text).ok(), "{:?}", text);
    }
}

#[test]
fn return_statements_agree() {
    for text in LITERALS.iter().chain(TEXTS.iter()) {
        assert_eq!(
            parse_return(text).ok(),
            return_statement(text).ok(),
            "{:?}",
            text
        );
    }
    for text in ["return x", "return\n\n_x y", "returnx", "return 9", "return", "Return x"] {
        assert_eq!(
            parse_return(text).ok(),
            return_statement(text).ok(),
            "{:?}",
            text
        );
    }
}

#[test]
fn values_agree() {
    for text in LITERALS.iter().chain(TEXTS.iter()) {
        assert_eq!(parse_identifier_value(text).ok(), value(text).ok(), "{:?}", text);
        if let Some(behind) = text.strip_prefix("x = ") {
            assert_eq!(
                parse_identifier_value(behind).ok(),
                value(behind).ok(),
                "{:?}",
                behind
            );
        }
    }
}

#[test]
fn tables_agree() {
    for text in TEXTS.iter() {
        assert_eq!(parse_table(text).ok(), table(text).ok(), "{:?}", text);
        if let Some(behind) = text.strip_prefix("x = ") {
            assert_eq!(parse_table(behind).ok(), table(behind).ok(), "{:?}", behind);
        }
    }
}

#[test]
fn bindings_agree() {
    for text in LITERALS.iter().chain(TEXTS.iter()) {
        assert_eq!(parse_identifier(text).ok(), identifier(text), "{:?}", text);
    }
}

#[test]
fn comments_and_lines_agree() {
    for text in LINES.iter().chain(TEXTS.iter()) {
        assert_eq!(
            parse_comment_line(text).ok(),
            comment_line(text).ok(),
            "{:?}",
            text
        );
        assert_eq!(
            parse_comment_block(text).ok(),
            comment_block(text).ok(),
            "{:?}",
            text
        );
        assert_eq!(parse_line(text).ok(), line(text).ok(), "{:?}", text);
    }
}

const PIECES: [&str; 30] = [
    "{", "}", "=", " ", ",", "\n", "\t", "a", "b1", "_", "1", "20", "3.", ".5", "e", "E+", "e-7",
    "-", "\"", "x\"", "true", "FALSE", "local ", "return ", "return", "function", "\u{e9}", "--",
    "[[", "]]",
];

/// Texts made of up to `longest` of the pieces, chosen by a fixed sequence
/// of pseudo-random numbers.
fn sample(pieces: &[&str], longest: u64, seed: u64, count: usize) -> Vec<String> {
    let mut state: u64 = seed;
    let mut next = move || {
        state ^= state << 13;
        state ^= state >> 7;
        state ^= state << 17;
        state
    };
    let mut texts = Vec::with_capacity(count);
    for _ in 0..count {
        let length = 1 + next() % longest;
        let mut text = String::new();
        for _ in 0..length {
            text.push_str(pieces[(next() % pieces.len() as u64) as usize]);
        }
        texts.push(text);
    }
    texts
}

fn sample_texts(count: usize) -> Vec<String> {
    sample(&PIECES, 9, 0x2545_f491_4f6c_dd1d, count)
}

const MEMBER_PIECES: [&str; 18] = [
    "a", "b1", "_", "=", " = ", " ", "\n", ",", "1", "2.5", "true", "\"s\"", "{", "}", "{}",
    "return x", "c={d=1}", "e=.5e1,",
];

#[test]
fn sampled_tables_agree() {
    let mut accepted = 0;
    for text in sample(&MEMBER_PIECES, 12, 0x0123_4567_89ab_cdef, 40000) {
        let braced = format!("{{{}}}", text);
        let ours = parse_table(&braced).ok();
        if ours.is_some() {
            accepted += 1;
        }
        assert_eq!(ours, table(&braced).ok(), "{:?}", braced);
        let bound = format!("t = {}", braced);
        assert_eq!(parse_identifier(&bound).ok(), identifier(&bound), "{:?}", bound);
    }
    assert!(accepted > 200, "only {} of the samples are tables", accepted);
}

#[test]
fn sampled_literals_agree() {
    for text in sample_texts(20000) {
        let text = text.as_str();
        assert_eq!(parse_boolean(text).ok(), boolean(text).ok(), "{:?}", text);
        assert_eq!(parse_number(text).ok(), number(text).ok(), "{:?}", text);
        assert_eq!(parse_string(text).ok(), string(text).ok(), "{:?}", text);
        assert_eq!(parse_name(text).ok(), name(text).ok(), "{:?}", text);
        assert_eq!(parse_equals(text).ok(), equals(text).ok(), "{:?}", text);
        assert_eq!(parse_local(text).ok(), local(text).ok(), "{:?}", text);
        assert_eq!(
            parse_return(text).ok(),
            return_statement(text).ok(),
            "{:?}",
            text
        );
    }
}

#[test]
fn sampled_values_agree() {
    let mut accepted = 0;
    for text in sample_texts(20000) {
        let text = text.as_str();
        let ours = parse_identifier_value(text).ok();
        if ours.is_some() {
            accepted += 1;
        }
        assert_eq!(ours, value(text).ok(), "{:?}", text);
        let braced = format!("{{{}}}", text);
        assert_eq!(parse_table(&braced).ok(), table(&braced).ok(), "{:?}", braced);
    }
    assert!(accepted > 1000, "only {} of the samples are values", accepted);
}

#[test]
fn sampled_bindings_agree() {
    let mut accepted = 0;
    for text in sample_texts(20000) {
        let text = text.as_str();
        assert_eq!(parse_identifier(text).ok(), identifier(text), "{:?}", text);
        let bound = format!("a = {}", text);
        let ours = parse_identifier(&bound).ok();
        if ours.is_some() {
            accepted += 1;
        }
        assert_eq!(ours, identifier(&bound), "{:?}", bound);
    }
    assert!(accepted > 1000, "only {} of the samples are bindings", accepted);
}

#[test]
fn sampled_comments_and_lines_agree() {
    for text in sample_texts(20000) {
        let text = text.as_str();
        assert_eq!(
            parse_comment_line(text).ok(),
            comment_line(text).ok(),
            "{:?}",
            text
        );
        assert_eq!(
            parse_comment_block(text).ok(),
            comment_block(text).ok(),
            "{:?}",
            text
        );
        assert_eq!(parse_line(text).ok(), line(text).ok(), "{:?}", text);
        let comment = format!("--{}", text);
        assert_eq!(
            parse_comment_line(&comment).ok(),
            comment_line(&comment).ok(),
            "{:?}",
            comment
        );
        assert_eq!(
            parse_comment_block(&comment).ok(),
            comment_block(&comment).ok(),
            "{:?}",
            comment
        );
    }
}

fn scope(body: &str) -> BindingMap {
    let mut identifiers = Vec::new();
    let mut rest = body;
    while let Some((behind, found)) = identifier(rest) {
        identifiers.push(found);
        rest = behind;
    }
    BindingMap::collect(identifiers)
}

fn end(input: &str) -> IResult<&str, (&str, &str)> {
    tuple((take_until("end"), terminated(tag("end"), multispace0)))(input)
}

fn do_block(input: &str) -> IResult<&str, Block> {
    let (rest, _) = recognize(pair(tag("do"), multispace0))(input)?;
    let (rest, (body, _)) = end(rest)?;
    Ok((
        rest,
        Block {
            block_type: BlockType::Do,
            identifiers: scope(body),
        },
    ))
}

fn while_header(input: &str) -> IResult<&str, &str> {
    let (rest, _) = delimited(multispace0, tag("while"), multispace0)(input)?;
    take_until("do")(rest)
}

fn repeat_block(input: &str) -> IResult<&str, Block> {
    let (rest, _) = delimited(multispace0, tag("repeat"), multispace0)(input)?;
    let (rest, (body, _)) = pair(
        take_until("until"),
        terminated(
            many1(alt((alphanumeric1, space1, tag("_")))),
            multispace0,
        ),
    )(rest)?;
    Ok((
        rest,
        Block {
            block_type: BlockType::Repeat,
            identifiers: scope(body),
        },
    ))
}

fn if_block(input: &str) -> IResult<&str, Block> {
    let (rest, _) = delimited(multispace0, tag("if"), multispace0)(input)?;
    let (rest, _) = pair(take_until("then"), terminated(tag("then"), multispace0))(rest)?;
    let (rest, (body, _)) = end(rest)?;
    Ok((
        rest,
        Block {
            block_type: BlockType::If,
            identifiers: scope(body),
        },
    ))
}

fn block(input: &str) -> IResult<&str, Block> {
    alt((
        nom::combinator::map(pair(while_header, do_block), |(_, b)| Block {
            block_type: BlockType::While,
            identifiers: b.identifiers,
        }),
        do_block,
        repeat_block,
        if_block,
    ))(input)
}

const BLOCK_PIECES: [&str; 24] = [
    "do", "end", "while", "repeat", "until", "if", "then", " ", " ", "\n", "\t", "x", "y_1", "=",
    "1", "\"s\"", "true", "{", "}", "a=2", ",", "local ", "<", "trend",
];

fn sample_blocks(count: usize) -> Vec<String> {
    sample(&BLOCK_PIECES, 14, 0x9e37_79b9_7f4a_7c15, count)
}

#[test]
fn blocks_agree() {
    for text in [
        "do end",
        "do x = 1 end",
        "do\n x = 1\n y = {a = 2}\nend\nrest",
        "while x < 1 do y = 2 end",
        "while done do y = 2 end",
        "repeat x = 1 until x",
        "repeat x = 1 until x_1 y\t2 \n z",
        "repeat until",
        "if x then y = 1 end",
        "if then end",
        "if x then do y = 1 end end",
        "do x = 1",
        "if x do y = 1 end",
        " do end",
        "  while x do end",
        "dodo end",
        "doend",
        "",
    ] {
        assert_eq!(parse_block(text).ok(), block(text).ok(), "{:?}", text);
    }
}

#[test]
fn sampled_blocks_agree() {
    let mut accepted = 0;
    for text in sample_blocks(40000) {
        let text = text.as_str();
        let ours = parse_block(text).ok();
        if ours.is_some() {
            accepted += 1;
        }
        assert_eq!(ours, block(text).ok(), "{:?}", text);
    }
    assert!(accepted > 100, "only {} of the samples are blocks", accepted);
}
