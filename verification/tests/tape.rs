use lisp::ook::{decode, parse, split, Instr, Tape};

#[test]
fn a_fresh_tape_has_one_zero_cell() {
    let mut t = Tape::new();
    assert_eq!(t.get(), 0);
}

#[test]
fn set_and_get_round_trip() {
    let mut t = Tape::new();
    t.set(42);
    assert_eq!(t.get(), 42);
}

#[test]
fn inc_counts_up() {
    let mut t = Tape::new();
    t.inc();
    t.inc();
    assert_eq!(t.get(), 2);
}

#[test]
fn dec_never_goes_below_one() {
    let mut t = Tape::new();
    assert_eq!(t.get(), 0);
    t.dec();
    assert_eq!(t.get(), 0);
    t.set(1);
    t.dec();
    assert_eq!(t.get(), 1);
    t.set(3);
    t.dec();
    assert_eq!(t.get(), 2);
}

#[test]
fn advance_grows_the_tape_with_zeros() {
    let mut t = Tape::new();
    t.set(7);
    t.advance();
    assert_eq!(t.get(), 0);
    t.advance();
    assert_eq!(t.get(), 0);
}

#[test]
fn devance_stops_at_position_one() {
    let mut t = Tape::new();
    t.advance();
    t.advance();
    t.set(9);
    t.devance();
    t.devance();
    t.devance();
    t.advance();
    assert_eq!(t.get(), 9);
}

#[test]
fn decode_recognizes_each_instruction() {
    assert_eq!(decode(&"Ook. Ook?".to_string()), Some(Instr::Advance));
    assert_eq!(decode(&"Ook? Ook.".to_string()), Some(Instr::Devance));
    assert_eq!(decode(&"Ook. Ook.".to_string()), Some(Instr::Inc));
    assert_eq!(decode(&"Ook! Ook!".to_string()), Some(Instr::Dec));
    assert_eq!(decode(&"Ook! Ook.".to_string()), Some(Instr::Print));
    assert_eq!(decode(&"Ook. Ook!".to_string()), Some(Instr::Read));
    assert_eq!(decode(&"Ook! Ook?".to_string()), Some(Instr::JumpIfZero));
    assert_eq!(decode(&"Ook? Ook!".to_string()), Some(Instr::JumpIfNonzero));
    assert_eq!(decode(&"Ook Ook".to_string()), None);
}

#[test]
fn split_pairs_consecutive_words() {
    let tokens = split("Ook. Ook? Ook! Ook!".to_string());
    assert_eq!(tokens, vec!["Ook. Ook?", "Ook! Ook!"]);
}

#[test]
fn split_drops_an_odd_trailing_word() {
    let tokens = split("Ook. Ook? Ook!".to_string());
    assert_eq!(tokens, vec!["Ook. Ook?"]);
}

#[test]
fn parse_keeps_only_instructions() {
    let p = parse("Ook. Ook. hello there Ook! Ook!".to_string());
    assert_eq!(p.tokens, vec!["Ook. Ook.", "Ook! Ook!"]);
    assert!(p.bracket_map.is_empty());
}

#[test]
fn parse_matches_jump_pairs_both_ways() {
    let p = parse("Ook! Ook? Ook. Ook. Ook? Ook!".to_string());
    assert_eq!(p.tokens.len(), 3);
    assert_eq!(p.bracket_map.get(&0), Some(&2));
    assert_eq!(p.bracket_map.get(&2), Some(&0));
}

#[test]
fn parse_pairs_an_unmatched_closer_with_zero() {
    let p = parse("Ook. Ook. Ook? Ook!".to_string());
    assert_eq!(p.bracket_map.get(&1), Some(&0));
    assert_eq!(p.bracket_map.get(&0), Some(&1));
}
