use uiua_core::host::{evaluate_source, format_source};

#[test]
fn format_add_to_glyph() {
    let r = format_source("add");
    assert!(r.success);
    assert_eq!(r.formatted, "+");
    assert_eq!(r.output, "");
}

#[test]
fn format_preserves_spacing_and_literals() {
    let r = format_source("2 3 add  # sum");
    assert!(r.success);
    assert_eq!(r.formatted, "2 3 +  # sum");
}

#[test]
fn format_idempotent_concrete() {
    let once = format_source("2 3 add sub dup flip neg len range pop");
    assert!(once.success);
    let twice = format_source(&once.formatted);
    assert!(twice.success);
    assert_eq!(twice.formatted, once.formatted);
}

#[test]
fn format_unterminated_string_falls_back() {
    let r = format_source("\"abc");
    assert!(!r.success);
    assert_eq!(r.formatted, "\"abc");
    assert_eq!(r.output, "unterminated string literal at 0");
}

#[test]
fn format_unrecognized_character() {
    let r = format_source("2 3 $");
    assert!(!r.success);
    assert_eq!(r.formatted, "2 3 $");
    assert_eq!(r.output, "unrecognized character at 4");
}

#[test]
fn eval_add_scenario() {
    let r = evaluate_source("add 2 3");
    assert!(r.success);
    assert_eq!(r.formatted, "+ 2 3");
    assert_eq!(r.stack, vec!["5".to_string()]);
    assert_eq!(r.output, "5");
}

#[test]
fn eval_unknown_identifier() {
    let r = evaluate_source("foobar");
    assert!(!r.success);
    assert_eq!(r.output, "unknown name foobar at token 0");
    assert!(r.stack.is_empty());
}

#[test]
fn eval_empty_source() {
    let r = evaluate_source("");
    assert!(r.success);
    assert_eq!(r.output, "");
    assert!(r.stack.is_empty());
    let f = format_source("");
    assert!(f.success);
    assert_eq!(f.formatted, "");
}

#[test]
fn eval_formatted_source_agrees() {
    let once = format_source("mul add 2 3 len [1 2 3]");
    assert!(once.success);
    let a = evaluate_source("mul add 2 3 len [1 2 3]");
    let b = evaluate_source(&once.formatted);
    assert_eq!(a.success, b.success);
    assert_eq!(a.stack, b.stack);
    assert_eq!(a.output, b.output);
}

#[test]
fn eval_stack_underflow() {
    let r = evaluate_source("add");
    assert!(!r.success);
    assert_eq!(r.output, "stack underflow");
    assert!(r.stack.is_empty());
}

#[test]
fn eval_one_operand_underflow() {
    let r = evaluate_source("add 1");
    assert!(!r.success);
    assert_eq!(r.output, "stack underflow");
}

#[test]
fn eval_shape_mismatch() {
    let r = evaluate_source("add [1 2] [1 2 3]");
    assert!(!r.success);
    assert_eq!(r.output, "shape mismatch: [3] and [2]");
    assert!(r.stack.is_empty());
}

#[test]
fn eval_scalar_broadcast() {
    let r = evaluate_source("add 5 [1 2 3]");
    assert!(r.success);
    assert_eq!(r.stack, vec!["[6 7 8]".to_string()]);
    let r2 = evaluate_source("mul [1 2 3] 5");
    assert!(r2.success);
    assert_eq!(r2.stack, vec!["[5 10 15]".to_string()]);
}

#[test]
fn eval_deterministic() {
    let a = evaluate_source("mul dup sub 10 3");
    let b = evaluate_source("mul dup sub 10 3");
    assert_eq!(a.success, b.success);
    assert_eq!(a.output, b.output);
    assert_eq!(a.stack, b.stack);
    assert_eq!(a.formatted, b.formatted);
}

#[test]
fn eval_sub_order() {
    let r = evaluate_source("sub 2 3");
    assert!(r.success);
    assert_eq!(r.stack, vec!["1".to_string()]);
}

#[test]
fn eval_mul() {
    let r = evaluate_source("mul 4 5");
    assert!(r.success);
    assert_eq!(r.stack, vec!["20".to_string()]);
}

#[test]
fn eval_neg() {
    let r = evaluate_source("neg 5");
    assert!(r.success);
    assert_eq!(r.stack, vec!["\u{af}5".to_string()]);
}

#[test]
fn eval_dup_and_flip() {
    let r = evaluate_source("add dup 3");
    assert!(r.success);
    assert_eq!(r.stack, vec!["6".to_string()]);
    let f = evaluate_source("sub flip 2 3");
    assert!(f.success);
    assert_eq!(f.stack, vec!["\u{af}1".to_string()]);
}

#[test]
fn eval_pop() {
    let r = evaluate_source("pop 1 2");
    assert!(r.success);
    assert_eq!(r.stack, vec!["2".to_string()]);
}

#[test]
fn eval_len() {
    let r = evaluate_source("len [1 2 3]");
    assert!(r.success);
    assert_eq!(r.stack, vec!["3".to_string()]);
    let s = evaluate_source("len 7");
    assert!(s.success);
    assert_eq!(s.stack, vec!["1".to_string()]);
}

#[test]
fn eval_range() {
    let r = evaluate_source("range 3");
    assert!(r.success);
    assert_eq!(r.stack, vec!["[0 1 2]".to_string()]);
    let bad = evaluate_source("range neg 3");
    assert!(!bad.success);
    assert_eq!(bad.output, "type mismatch");
}

#[test]
fn eval_stack_order_top_first() {
    let r = evaluate_source("1 2");
    assert!(r.success);
    assert_eq!(r.stack, vec!["1".to_string(), "2".to_string()]);
    assert_eq!(r.output, "1\n2");
}

#[test]
fn eval_string_literal() {
    let r = evaluate_source("\"hi\"");
    assert!(r.success);
    assert_eq!(r.stack, vec!["\"hi\"".to_string()]);
}

#[test]
fn eval_nested_array_literal() {
    let r = evaluate_source("[[1 2] [3 4]]");
    assert!(r.success);
    assert_eq!(r.stack, vec!["[1 2 3 4]".to_string()]);
}

#[test]
fn eval_empty_array_literal() {
    let r = evaluate_source("[]");
    assert!(r.success);
    assert_eq!(r.stack, vec!["[]".to_string()]);
}

#[test]
fn eval_mixed_array_literal_fails() {
    let r = evaluate_source("[1 \"a\"]");
    assert!(!r.success);
    assert_eq!(r.output, "type mismatch");
}

#[test]
fn eval_unbalanced_brackets() {
    let open = evaluate_source("[1 2");
    assert!(!open.success);
    assert_eq!(open.output, "unbalanced bracket at token 4");
    let close = evaluate_source("]");
    assert!(!close.success);
    assert_eq!(close.output, "unbalanced bracket at token 0");
}

#[test]
fn eval_overflow_reported() {
    let r = evaluate_source("add 9223372036854775807 1");
    assert!(!r.success);
    assert_eq!(r.output, "numeric overflow");
}

#[test]
fn eval_oversized_literal_is_malformed() {
    let r = evaluate_source("99999999999999999999");
    assert!(!r.success);
    assert_eq!(r.output, "malformed literal at token 0");
}

#[test]
fn eval_type_mismatch_on_string_operand() {
    let r = evaluate_source("add 1 \"a\"");
    assert!(!r.success);
    assert_eq!(r.output, "type mismatch");
}

#[test]
fn eval_comment_ignored() {
    let r = evaluate_source("add 2 3 # the sum\n");
    assert!(r.success);
    assert_eq!(r.stack, vec!["5".to_string()]);
}

#[test]
fn eval_glyph_source_directly() {
    let r = evaluate_source("+ 2 3");
    assert!(r.success);
    assert_eq!(r.stack, vec!["5".to_string()]);
    let f = format_source("2 3 +");
    assert!(f.success);
    assert_eq!(f.formatted, "2 3 +");
}

#[test]
fn eval_lex_failure_keeps_original_formatting() {
    let r = evaluate_source("\"abc");
    assert!(!r.success);
    assert_eq!(r.formatted, "\"abc");
    assert_eq!(r.output, "unterminated string literal at 0");
    assert!(r.stack.is_empty());
}

#[test]
fn version_is_constant() {
    assert_eq!(uiua_core::core_version(), "0.1.0");
}

#[test]
fn eval_nested_shape_mismatch() {
    let r = evaluate_source("[[1 2] [3]]");
    assert!(!r.success);
    assert_eq!(r.output, "shape mismatch: [2] and [1]");
}

#[test]
fn format_every_mnemonic() {
    let r = format_source("add sub mul neg dup flip pop len range");
    assert!(r.success);
    assert_eq!(
        r.formatted,
        "+ - \u{d7} \u{af} . : \u{25cc} \u{29fb} \u{21e1}"
    );
}
