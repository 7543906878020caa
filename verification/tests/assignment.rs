use ion_engine::actions::{Action, AssignmentActions, AssignmentError};
use ion_engine::keys::{Key, Primitive, TypeError};
use ion_engine::lexer::assignment_lexer;
use ion_engine::operators::Operator;

fn split(input: &str) -> (String, Operator, String) {
    let (keys, op, vals) = assignment_lexer(input);
    (keys.unwrap(), op.unwrap(), vals.unwrap())
}

fn key(name: &str, kind: Primitive) -> Key {
    Key { name: name.to_string(), kind }
}

#[test]
fn assignment_actions() {
    let (keys, op, vals) = split("abc def = 123 456");
    let actions = AssignmentActions::new(&keys, op, &vals).collect_actions();
    assert_eq!(actions.len(), 2);
    assert_eq!(
        actions[0],
        Ok(Action(key("abc", Primitive::Str), Operator::Equal, "123".to_string()))
    );
    assert_eq!(
        actions[1],
        Ok(Action(key("def", Primitive::Str), Operator::Equal, "456".to_string()))
    );

    let (keys, op, vals) = split("ab:int *= 3");
    let actions = AssignmentActions::new(&keys, op, &vals).collect_actions();
    assert_eq!(actions.len(), 1);
    assert_eq!(
        actions[0],
        Ok(Action(key("ab", Primitive::Integer), Operator::Multiply, "3".to_string()))
    );

    let (keys, op, vals) = split("a b[] c:[int] = one [two three] [4 5 6]");
    let actions = AssignmentActions::new(&keys, op, &vals).collect_actions();
    assert_eq!(actions.len(), 3);
    assert_eq!(
        actions[0],
        Ok(Action(key("a", Primitive::Str), Operator::Equal, "one".to_string()))
    );
    assert_eq!(
        actions[1],
        Ok(Action(key("b", Primitive::StrArray), Operator::Equal, "[two three]".to_string()))
    );
    assert_eq!(
        actions[2],
        Ok(Action(key("c", Primitive::IntegerArray), Operator::Equal, "[4 5 6]".to_string()))
    );

    let (keys, op, values) = split("a[] b c[] = [one two] three [four five]");
    let actions = AssignmentActions::new(&keys, op, &values).collect_actions();
    assert_eq!(actions.len(), 3);
    assert_eq!(
        actions[0],
        Ok(Action(key("a", Primitive::StrArray), Operator::Equal, "[one two]".to_string()))
    );
    assert_eq!(
        actions[1],
        Ok(Action(key("b", Primitive::Str), Operator::Equal, "three".to_string()))
    );
    assert_eq!(
        actions[2],
        Ok(Action(key("c", Primitive::StrArray), Operator::Equal, "[four five]".to_string()))
    );

    let (keys, op, values) = split("array ++= [one two three four five]");
    let actions = AssignmentActions::new(&keys, op, &values).collect_actions();
    assert_eq!(actions.len(), 1);
    assert_eq!(
        actions[0],
        Ok(Action(
            key("array", Primitive::Str),
            Operator::Concatenate,
            "[one two three four five]".to_string()
        ))
    );

    let (keys, op, values) = split("array ::= [1 2 3 4 5]");
    let actions = AssignmentActions::new(&keys, op, &values).collect_actions();
    assert_eq!(actions.len(), 1);
    assert_eq!(
        actions[0],
        Ok(Action(
            key("array", Primitive::Str),
            Operator::ConcatenateHead,
            "[1 2 3 4 5]".to_string()
        ))
    );

    let (keys, op, values) = split(r"array \\= [foo bar baz]");
    let actions = AssignmentActions::new(&keys, op, &values).collect_actions();
    assert_eq!(actions.len(), 1);
    assert_eq!(
        actions[0],
        Ok(Action(
            key("array", Primitive::Str),
            Operator::Filter,
            "[foo bar baz]".to_string()
        ))
    );
}

#[test]
fn repeated_key() {
    let (keys, op, vals) = split("x y z x = 1 2 3 4");
    let actions = AssignmentActions::new(&keys, op, &vals).collect_actions();
    assert_eq!(actions.len(), 4);
    assert_eq!(actions[3], Err(AssignmentError::RepeatedKey("x".to_string())));
}

#[test]
fn no_key() {
    let (keys, op, vals) = split(" = 1");
    let actions = AssignmentActions::new(&keys, op, &vals).collect_actions();
    assert_eq!(actions.len(), 1);
    assert_eq!(actions[0], Err(AssignmentError::NoKey("1".to_string())));
}

#[test]
fn outcome_count_is_max_of_keys_and_values() {
    let (keys, op, vals) = split("a b c = 1 2 3 4 5");
    let actions = AssignmentActions::new(&keys, op, &vals).collect_actions();
    assert_eq!(actions.len(), 5);

    let (keys, op, vals) = split("a b c d e = 1 2");
    let actions = AssignmentActions::new(&keys, op, &vals).collect_actions();
    assert_eq!(actions.len(), 5);
}

#[test]
fn array_key_rejects_scalar_value() {
    let (keys, op, vals) = split("a[] = one");
    let actions = AssignmentActions::new(&keys, op, &vals).collect_actions();
    assert_eq!(actions.len(), 1);
    assert_eq!(
        actions[0],
        Err(AssignmentError::InvalidValue(Primitive::StrArray, Primitive::Str))
    );
}

#[test]
fn scalar_key_rejects_array_value() {
    let (keys, op, vals) = split("a:int = [1 2]");
    let actions = AssignmentActions::new(&keys, op, &vals).collect_actions();
    assert_eq!(actions.len(), 1);
    assert_eq!(
        actions[0],
        Err(AssignmentError::InvalidValue(Primitive::Integer, Primitive::StrArray))
    );
}

#[test]
fn extra_values_name_previous_pair() {
    let (keys, op, vals) = split("a = 1 2 3");
    let actions = AssignmentActions::new(&keys, op, &vals).collect_actions();
    assert_eq!(actions.len(), 3);
    assert_eq!(
        actions[1],
        Err(AssignmentError::ExtraValues("a".to_string(), "1".to_string()))
    );
    assert_eq!(
        actions[2],
        Err(AssignmentError::ExtraValues("a".to_string(), "1".to_string()))
    );
}

#[test]
fn extra_keys_name_previous_pair() {
    let (keys, op, vals) = split("a b c = 1");
    let actions = AssignmentActions::new(&keys, op, &vals).collect_actions();
    assert_eq!(actions.len(), 3);
    assert_eq!(
        actions[0],
        Ok(Action(key("a", Primitive::Str), Operator::Equal, "1".to_string()))
    );
    assert_eq!(
        actions[1],
        Err(AssignmentError::ExtraKeys("a".to_string(), "1".to_string()))
    );
    assert_eq!(
        actions[2],
        Err(AssignmentError::ExtraKeys("a".to_string(), "1".to_string()))
    );
}

#[test]
fn bad_type_annotation_is_a_type_error() {
    let (keys, op, vals) = split("a:quux = 1");
    let actions = AssignmentActions::new(&keys, op, &vals).collect_actions();
    assert_eq!(actions.len(), 1);
    assert_eq!(
        actions[0],
        Err(AssignmentError::TypeError(TypeError::Invalid("quux".to_string())))
    );
}

#[test]
fn error_messages_describe_each_variant() {
    assert_eq!(
        AssignmentError::InvalidValue(Primitive::StrArray, Primitive::Str).message(),
        "expected str[], but received str"
    );
    assert_eq!(
        AssignmentError::RepeatedKey("x".to_string()).message(),
        "repeated assignment to same key, and thus ignored. Repeated key: 'x'"
    );
    assert_eq!(
        AssignmentError::NoKey("1".to_string()).message(),
        "no key to assign value, thus ignored. Value: '1'"
    );
    assert_eq!(
        AssignmentError::ExtraValues("a".to_string(), "1".to_string()).message(),
        "extra values were supplied, and thus ignored. Previous assignment: 'a' = '1'"
    );
    assert_eq!(
        AssignmentError::ExtraKeys("a".to_string(), "1".to_string()).message(),
        "extra keys were supplied, and thus ignored. Previous assignment: 'a' = '1'"
    );
    assert_eq!(
        AssignmentError::TypeError(TypeError::Invalid("quux".to_string())).message(),
        "invalid type supplied: quux"
    );
}

#[test]
fn stream_is_ok_detects_the_unpaired_surplus_key_shape() {
    let (keys, op, vals) = split("a b = 1");
    assert!(AssignmentActions::new(&keys, op, &vals).stream_is_ok());
    let (keys, op, vals) = split("a b c = 1 2 3");
    assert!(AssignmentActions::new(&keys, op, &vals).stream_is_ok());
    let (keys, op, vals) = split("a b = ");
    assert!(!AssignmentActions::new(&keys, op, &vals).stream_is_ok());
}

#[test]
fn lexer_splits_operator_and_trims() {
    let (keys, op, vals) = assignment_lexer("abc def = 123 456");
    assert_eq!(keys.unwrap(), "abc def");
    assert_eq!(op.unwrap(), Operator::Equal);
    assert_eq!(vals.unwrap(), "123 456");

    let (keys, op, vals) = assignment_lexer("x //= 2");
    assert_eq!(keys.unwrap(), "x");
    assert_eq!(op.unwrap(), Operator::IntegerDivide);
    assert_eq!(vals.unwrap(), "2");

    let (keys, op, vals) = assignment_lexer("no operator here");
    assert_eq!(keys.unwrap(), "no operator here");
    assert!(op.is_none());
    assert!(vals.is_none());
}
