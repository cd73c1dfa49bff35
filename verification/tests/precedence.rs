use pratt::op::{Affix, Op};
use pratt::precedence::{Arity, Associativity, Precedence, MAX_DECLARED, SPREAD};

#[test]
fn raise_adds_one_and_saturates() {
    assert_eq!(Precedence(0).raise(), Precedence(1));
    assert_eq!(Precedence(41).raise(), Precedence(42));
    assert_eq!(Precedence(u32::MAX - 1).raise(), Precedence(u32::MAX));
    assert_eq!(Precedence(u32::MAX).raise(), Precedence(u32::MAX));
    assert_eq!(Precedence::max().raise().raise(), Precedence::max());
}

#[test]
fn lower_subtracts_one_and_saturates() {
    assert_eq!(Precedence(1).lower(), Precedence(0));
    assert_eq!(Precedence(42).lower(), Precedence(41));
    assert_eq!(Precedence(0).lower(), Precedence(0));
    assert_eq!(Precedence::min().lower().lower(), Precedence::min());
}

#[test]
fn normalize_multiplies_by_ten_and_saturates() {
    assert_eq!(SPREAD, 10);
    assert_eq!(Precedence(0).normalize(), Precedence(0));
    assert_eq!(Precedence(7).normalize(), Precedence(70));
    assert_eq!(Precedence(429_496_729).normalize(), Precedence(4_294_967_290));
    assert_eq!(Precedence(429_496_730).normalize(), Precedence(u32::MAX));
    assert_eq!(Precedence(u32::MAX).normalize(), Precedence(u32::MAX));
}

#[test]
fn sentinels() {
    assert_eq!(Precedence::min(), Precedence(0));
    assert_eq!(Precedence::max(), Precedence(u32::MAX));
    assert!(Precedence::min().is_below(Precedence::max()));
    assert!(!Precedence::max().is_below(Precedence::max()));
    assert!(Precedence(3).is_below(Precedence(4)));
    assert!(!Precedence(4).is_below(Precedence(3)));
    assert!(Precedence(3) < Precedence(4));
}

#[test]
fn the_largest_declared_level_keeps_its_headroom() {
    assert_eq!(MAX_DECLARED, 429_496_729);
    let top = Precedence(MAX_DECLARED).normalize();
    assert!(top.is_below(top.raise()));
    assert!(top.raise().is_below(Precedence::max()));
    let next = Precedence(MAX_DECLARED - 1).normalize();
    assert!(next.raise().is_below(top.lower()));
}

#[test]
fn binding_powers_of_a_leaf() {
    let op = Op::nilfix();
    assert_eq!(op.affix, Affix::Nilfix);
    assert_eq!(op.arity, Arity::Nullary);
    assert!(op.follow.is_empty());
    assert_eq!(op.lbp(), Precedence(0));
    assert_eq!(op.rbp(), Precedence(0));
    assert_eq!(op.nbp(), Precedence(u32::MAX));
}

#[test]
fn binding_powers_of_unary_operators() {
    let op = Op::prefix(Precedence(6));
    assert_eq!((op.affix, op.arity), (Affix::Prefix, Arity::Unary));
    assert_eq!(op.precedence, Precedence(6));
    assert_eq!(op.lbp(), Precedence(0));
    assert_eq!(op.rbp(), Precedence(59));
    assert_eq!(op.nbp(), Precedence(u32::MAX));

    let op = Op::postfix(Precedence(5));
    assert_eq!((op.affix, op.arity), (Affix::Postfix, Arity::Unary));
    assert_eq!(op.lbp(), Precedence(50));
    assert_eq!(op.nbp(), Precedence(u32::MAX));
}

#[test]
fn binding_powers_of_binary_operators() {
    let op = Op::infix(Precedence(3), Associativity::Left);
    assert_eq!((op.affix, op.arity), (Affix::Infix, Arity::Binary));
    assert_eq!(op.associativity, Associativity::Left);
    assert_eq!(op.lbp(), Precedence(30));
    assert_eq!(op.rbp(), Precedence(30));
    assert_eq!(op.nbp(), Precedence(31));

    let op = Op::infix(Precedence(7), Associativity::Right);
    assert_eq!(op.lbp(), Precedence(70));
    assert_eq!(op.rbp(), Precedence(69));
    assert_eq!(op.nbp(), Precedence(71));

    let op = Op::infix(Precedence(2), Associativity::Neither);
    assert_eq!(op.lbp(), Precedence(20));
    assert_eq!(op.rbp(), Precedence(21));
    assert_eq!(op.nbp(), Precedence(20));
}

#[test]
fn binding_powers_saturate() {
    let op = Op::infix(Precedence(u32::MAX), Associativity::Neither);
    assert_eq!(op.lbp(), Precedence(u32::MAX));
    assert_eq!(op.rbp(), Precedence(u32::MAX));
    assert_eq!(op.nbp(), Precedence(u32::MAX));
    let op = Op::prefix(Precedence(0));
    assert_eq!(op.rbp(), Precedence(0));
    let op = Op::infix(Precedence(0), Associativity::Right);
    assert_eq!(op.lbp(), Precedence(0));
    assert_eq!(op.rbp(), Precedence(0));
    assert_eq!(op.nbp(), Precedence(1));
}

#[test]
fn multi_part_operators() {
    let op = Op::prefix_ternary(Precedence(1), 10, 20);
    assert_eq!((op.affix, op.arity), (Affix::Prefix, Arity::Ternary));
    assert_eq!(op.follow, vec![10, 20]);
    assert_eq!(op.rbp(), Precedence(9));
    assert_eq!(op.lbp(), Precedence(0));

    let op = Op::infix_ternary(Precedence(2), Associativity::Right, 30);
    assert_eq!((op.affix, op.arity), (Affix::Infix, Arity::Ternary));
    assert_eq!(op.follow, vec![30]);
    assert_eq!(op.lbp(), Precedence(20));
    assert_eq!(op.rbp(), Precedence(19));
    assert_eq!(op.nbp(), Precedence(21));

    let op = Op::postfix_ternary(Precedence(2), Associativity::Neither, 30);
    assert_eq!((op.affix, op.arity), (Affix::Postfix, Arity::Ternary));
    assert_eq!(op.follow, vec![30]);
    assert_eq!(op.lbp(), Precedence(20));
    assert_eq!(op.rbp(), Precedence(21));
    assert_eq!(op.nbp(), Precedence(u32::MAX));

    let op = Op::circumfix(Precedence(1), 40, 50);
    assert_eq!((op.affix, op.arity), (Affix::Circumfix, Arity::Unary));
    assert_eq!(op.symbol, 40);
    assert_eq!(op.follow, vec![50]);
    assert_eq!(op.lbp(), Precedence(0));
    assert_eq!(op.rbp(), Precedence(9));
    assert_eq!(op.nbp(), Precedence(u32::MAX));

    let op = Op::interfix(60);
    assert_eq!((op.affix, op.arity), (Affix::Interfix, Arity::Nullary));
    assert_eq!(op.symbol, 60);
    assert_eq!(op.lbp(), Precedence(0));
    assert_eq!(op.rbp(), Precedence(0));
    assert_eq!(op.nbp(), Precedence(u32::MAX));
}

#[test]
fn separators_are_known_by_their_symbol() {
    assert!(Op::interfix(60).is_separator(60));
    assert!(!Op::interfix(60).is_separator(61));
    assert!(Op::circumfix(Precedence(1), 40, 50).is_separator(40));
    assert!(!Op::circumfix(Precedence(1), 40, 50).is_separator(50));
    assert!(!Op::nilfix().is_separator(0));
    assert!(!Op::infix(Precedence(1), Associativity::Left).is_separator(0));
}

#[test]
fn affixes_that_combine() {
    assert_eq!(Affix::Nilfix.combine(Affix::Infix), Some(Affix::NilfixInfix));
    assert_eq!(Affix::Infix.combine(Affix::Nilfix), Some(Affix::NilfixInfix));
    assert_eq!(Affix::Nilfix.combine(Affix::Postfix), Some(Affix::NilfixPostfix));
    assert_eq!(Affix::Postfix.combine(Affix::Nilfix), Some(Affix::NilfixPostfix));
    assert_eq!(Affix::Prefix.combine(Affix::Infix), None);
    assert_eq!(Affix::Prefix.combine(Affix::Postfix), None);
    assert_eq!(Affix::Circumfix.combine(Affix::Infix), None);
    assert_eq!(Affix::Nilfix.combine(Affix::Nilfix), None);
    assert_eq!(Affix::Nilfix.combine(Affix::Prefix), None);
    assert_eq!(Affix::Nilfix.combine(Affix::Interfix), None);
    assert_eq!(Affix::Infix.combine(Affix::Postfix), None);
    assert_eq!(Affix::NilfixInfix.combine(Affix::Nilfix), None);
}

#[test]
fn a_composite_descriptor_in_its_roles() {
    let op = Op::nilfix_or_infix(Precedence(3), Associativity::Right);
    assert_eq!((op.affix, op.arity), (Affix::NilfixInfix, Arity::Binary));
    assert_eq!(op.leading_shape(), (Affix::Nilfix, Arity::Nullary));
    assert_eq!(op.continuing_shape(), (Affix::Infix, Arity::Binary));
    assert_eq!(op.lbp(), Precedence(30));
    assert_eq!(op.rbp(), Precedence(29));
    assert_eq!(op.nbp(), Precedence(31));
    let leaf = op.leading();
    assert_eq!((leaf.affix, leaf.arity), (Affix::Nilfix, Arity::Nullary));
    assert_eq!(leaf.lbp(), Precedence(0));
    assert_eq!(leaf.nbp(), Precedence(u32::MAX));
    let op = Op::nilfix_or_infix(Precedence(3), Associativity::Right).continuing();
    assert_eq!((op.affix, op.arity), (Affix::Infix, Arity::Binary));
    assert_eq!(op.precedence, Precedence(3));
    assert_eq!(op.associativity, Associativity::Right);

    let op = Op::nilfix_or_postfix(Precedence(6));
    assert_eq!((op.affix, op.arity), (Affix::NilfixPostfix, Arity::Unary));
    assert_eq!(op.leading_shape(), (Affix::Nilfix, Arity::Nullary));
    assert_eq!(op.continuing_shape(), (Affix::Postfix, Arity::Unary));
    assert_eq!(op.lbp(), Precedence(60));
    assert_eq!(op.nbp(), Precedence(u32::MAX));
    let op = op.continuing();
    assert_eq!((op.affix, op.arity), (Affix::Postfix, Arity::Unary));
}

#[test]
fn a_plain_descriptor_is_the_same_in_both_roles() {
    let op = Op::prefix_ternary(Precedence(1), 10, 20);
    assert_eq!(op.leading_shape(), (Affix::Prefix, Arity::Ternary));
    assert_eq!(op.continuing_shape(), (Affix::Prefix, Arity::Ternary));
    let op = op.leading().continuing();
    assert_eq!((op.affix, op.arity), (Affix::Prefix, Arity::Ternary));
    assert_eq!(op.follow, vec![10, 20]);
    assert_eq!(op.precedence, Precedence(1));
}
