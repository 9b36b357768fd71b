use zankyou::parser::{ArgumentParser, ParseCommandError};

static REQUIRED: &[&str] = &["name", "id"];
static OPTIONAL: &[&str] = &["limit"];

#[test]
fn parse_reads_pairs_and_get_reads_values() {
    let args = ArgumentParser::new()
        .required(REQUIRED)
        .optional(OPTIONAL)
        .parse("  id=42 name=foo  limit=3 ")
        .unwrap();
    assert_eq!(args.get::<usize>("id"), Ok(42));
    assert_eq!(args.get::<usize>("limit"), Ok(3));
    assert_eq!(
        args.get::<usize>("name"),
        Err(ParseCommandError::InvalidArgument("name".to_string()))
    );
    assert_eq!(
        args.get::<usize>("other"),
        Err(ParseCommandError::MissingArgument("other".to_string()))
    );
}

#[test]
fn parse_value_may_hold_equals_sign() {
    let args = ArgumentParser::new().optional(OPTIONAL).parse("limit==1").unwrap();
    assert_eq!(
        args.get::<usize>("limit"),
        Err(ParseCommandError::InvalidArgument("limit".to_string()))
    );
    let args = ArgumentParser::new().optional(OPTIONAL).parse("limit=").unwrap();
    assert_eq!(
        args.get::<usize>("limit"),
        Err(ParseCommandError::InvalidArgument("limit".to_string()))
    );
}

#[test]
fn parse_errors_in_order() {
    let parser = ArgumentParser::new().required(REQUIRED).optional(OPTIONAL);
    assert_eq!(
        parser.clone().parse("id=1 oops name=x").err(),
        Some(ParseCommandError::InvalidArgument("oops".to_string()))
    );
    assert_eq!(
        parser.clone().parse("id=1 id=2").err(),
        Some(ParseCommandError::DuplicateArgument("id".to_string()))
    );
    assert_eq!(
        parser.clone().parse("id=1").err(),
        Some(ParseCommandError::MissingArgument("name".to_string()))
    );
    assert_eq!(
        parser.clone().parse("extra=1 id=1").err(),
        Some(ParseCommandError::MissingArgument("name".to_string()))
    );
    assert_eq!(
        parser.parse("extra=1 id=1 name=x").err(),
        Some(ParseCommandError::UnexpectedArgument("extra".to_string()))
    );
}

#[test]
fn parse_empty_input() {
    let args = ArgumentParser::new().parse("   ").unwrap();
    assert_eq!(
        args.get::<usize>("id"),
        Err(ParseCommandError::MissingArgument("id".to_string()))
    );
}

#[test]
fn get_rejects_overflowing_number() {
    let args = ArgumentParser::new()
        .optional(OPTIONAL)
        .parse("limit=99999999999999999999999")
        .unwrap();
    assert_eq!(
        args.get::<usize>("limit"),
        Err(ParseCommandError::InvalidArgument("limit".to_string()))
    );
}

static ID: &[&str] = &["id"];
static NAME: &[&str] = &["name"];
static V: &[&str] = &["v"];

#[test]
fn get_reads_strings_and_values_after_first_equals_sign() {
    let args = ArgumentParser::new()
        .required(ID)
        .optional(NAME)
        .parse("  name=a=b   id=7 ")
        .unwrap();
    assert_eq!(args.get::<usize>("id"), Ok(7));
    assert_eq!(args.get::<String>("name"), Ok("a=b".to_string()));
}

#[test]
fn get_reads_text_that_is_no_number_as_string() {
    let args = ArgumentParser::new().required(ID).parse("id=abc").unwrap();
    assert_eq!(
        args.get::<usize>("id"),
        Err(ParseCommandError::InvalidArgument("id".to_string()))
    );
    assert_eq!(
        args.get::<usize>("x"),
        Err(ParseCommandError::MissingArgument("x".to_string()))
    );
    assert_eq!(args.get::<String>("id"), Ok("abc".to_string()));
}

#[test]
fn optional_names_may_be_left_out() {
    let p = ArgumentParser::new().optional(V);
    assert!(p.clone().parse("").is_ok());
    assert_eq!(p.clone().parse("v=3").unwrap().get::<u8>("v"), Ok(3));
    assert_eq!(
        p.parse("v=3 w=4").err(),
        Some(ParseCommandError::UnexpectedArgument("w".to_string()))
    );
}

#[test]
fn get_reads_every_integer_type() {
    let args = ArgumentParser::new()
        .optional(V)
        .parse("v=-128")
        .unwrap();
    assert_eq!(args.get::<i8>("v"), Ok(-128));
    assert_eq!(args.get::<i64>("v"), Ok(-128));
    assert_eq!(
        args.get::<u8>("v"),
        Err(ParseCommandError::InvalidArgument("v".to_string()))
    );
    assert_eq!(
        args.get::<i128>("v"),
        Ok(-128)
    );
    let args = ArgumentParser::new().optional(V).parse("v=+255").unwrap();
    assert_eq!(args.get::<u8>("v"), Ok(255));
    assert_eq!(args.get::<u16>("v"), Ok(255));
    assert_eq!(args.get::<u32>("v"), Ok(255));
    assert_eq!(args.get::<u64>("v"), Ok(255));
    assert_eq!(args.get::<u128>("v"), Ok(255));
    assert_eq!(args.get::<isize>("v"), Ok(255));
    assert_eq!(args.get::<i16>("v"), Ok(255));
    assert_eq!(args.get::<i32>("v"), Ok(255));
    assert_eq!(
        args.get::<i8>("v"),
        Err(ParseCommandError::InvalidArgument("v".to_string()))
    );
    let args = ArgumentParser::new().optional(V).parse("v=-0").unwrap();
    assert_eq!(args.get::<i32>("v"), Ok(0));
    assert_eq!(
        args.get::<u32>("v"),
        Err(ParseCommandError::InvalidArgument("v".to_string()))
    );
    let args = ArgumentParser::new()
        .optional(V)
        .parse("v=-170141183460469231731687303715884105728")
        .unwrap();
    assert_eq!(args.get::<i128>("v"), Ok(i128::MIN));
    let args = ArgumentParser::new().optional(V).parse("v=-").unwrap();
    assert_eq!(
        args.get::<i32>("v"),
        Err(ParseCommandError::InvalidArgument("v".to_string()))
    );
}

#[test]
fn parser_without_names_accepts_only_blank_text() {
    assert!(ArgumentParser::new().parse(" \t ").is_ok());
    assert_eq!(
        ArgumentParser::new().parse("a=1").err(),
        Some(ParseCommandError::UnexpectedArgument("a".to_string()))
    );
    assert_eq!(
        ArgumentParser::new().parse("a").err(),
        Some(ParseCommandError::InvalidArgument("a".to_string()))
    );
}

#[test]
fn cloned_arguments_hold_the_same_pairs() {
    let args = ArgumentParser::new().required(ID).optional(NAME).parse("id=3 name=x").unwrap();
    let copy = args.clone();
    assert_eq!(copy.get::<usize>("id"), Ok(3));
    assert_eq!(copy.get::<String>("name"), Ok("x".to_string()));
}
