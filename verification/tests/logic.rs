use hardware::logic::bit::{I, O};
use hardware::logic::{
    and, and16, dmux, dmux4way, dmux8way, mux, mux16, mux2, mux3, mux4way16, mux8way16, nand, not,
    not16, or, or16, or8way, xor, Word,
};
use hardware::util::ParseError;

#[test]
fn for_nand() {
    assert_eq!(nand(O, O), I);
    assert_eq!(nand(I, O), I);
    assert_eq!(nand(O, I), I);
    assert_eq!(nand(I, I), O);
}

#[test]
fn for_not() {
    assert_eq!(not(O), I);
    assert_eq!(not(I), O);
}

#[test]
fn for_and() {
    assert_eq!(and(O, O), O);
    assert_eq!(and(I, O), O);
    assert_eq!(and(O, I), O);
    assert_eq!(and(I, I), I);
}

#[test]
fn for_or() {
    assert_eq!(or(O, O), O);
    assert_eq!(or(I, O), I);
    assert_eq!(or(O, I), I);
    assert_eq!(or(I, I), I);
}

#[test]
fn for_xor() {
    assert_eq!(xor(O, O), O);
    assert_eq!(xor(I, O), I);
    assert_eq!(xor(O, I), I);
    assert_eq!(xor(I, I), O);
}

#[test]
fn for_mux() {
    assert_eq!(mux(O, O, O), O);
    assert_eq!(mux(O, I, O), O);
    assert_eq!(mux(I, O, O), I);
    assert_eq!(mux(I, I, O), I);
    assert_eq!(mux(O, O, I), O);
    assert_eq!(mux(O, I, I), I);
    assert_eq!(mux(I, O, I), O);
    assert_eq!(mux(I, I, I), I);
}

#[test]
fn for_dmux() {
    assert_eq!(dmux(O, O), [O, O]);
    assert_eq!(dmux(O, I), [O, O]);
    assert_eq!(dmux(I, O), [I, O]);
    assert_eq!(dmux(I, I), [O, I]);
}

#[test]
fn for_not16() {
    assert_eq!(not16(Word::new([O; 16])), Word::new([I; 16]));
    assert_eq!(not16(Word::new([I; 16])), Word::new([O; 16]));
    assert_eq!(
        not16(Word::new([I, O, I, O, I, O, I, O, I, O, I, O, I, O, I, O])),
        Word::new([O, I, O, I, O, I, O, I, O, I, O, I, O, I, O, I])
    );
    assert_eq!(
        not16(Word::new([I, I, I, O, I, O, I, O, I, O, I, O, I, I, I, O])),
        Word::new([O, O, O, I, O, I, O, I, O, I, O, I, O, O, O, I])
    );
}

#[test]
fn for_and16() {
    assert_eq!(and16(Word::new([O; 16]), Word::new([O; 16])), Word::new([O; 16]));
    assert_eq!(and16(Word::new([I; 16]), Word::new([O; 16])), Word::new([O; 16]));
    assert_eq!(and16(Word::new([O; 16]), Word::new([I; 16])), Word::new([O; 16]));
    assert_eq!(and16(Word::new([I; 16]), Word::new([I; 16])), Word::new([I; 16]));
    assert_eq!(
        and16(
            Word::new([I, O, I, O, I, O, I, O, I, O, I, O, I, O, I, O]),
            Word::new([I, O, I, O, I, O, I, O, I, O, I, O, I, O, I, O])
        ),
        Word::new([I, O, I, O, I, O, I, O, I, O, I, O, I, O, I, O])
    );
    assert_eq!(
        and16(
            Word::new([I, O, I, O, I, O, I, O, I, O, I, O, I, O, I, O]),
            Word::new([O, I, O, I, O, I, O, I, O, I, O, I, O, I, O, I])
        ),
        Word::new([O; 16])
    );
}

#[test]
fn for_or16() {
    assert_eq!(or16(Word::new([O; 16]), Word::new([O; 16])), Word::new([O; 16]));
    assert_eq!(or16(Word::new([I; 16]), Word::new([O; 16])), Word::new([I; 16]));
    assert_eq!(or16(Word::new([O; 16]), Word::new([I; 16])), Word::new([I; 16]));
    assert_eq!(or16(Word::new([I; 16]), Word::new([I; 16])), Word::new([I; 16]));
    assert_eq!(
        or16(
            Word::new([I, O, I, O, I, O, I, O, I, O, I, O, I, O, I, O]),
            Word::new([I, O, I, O, I, O, I, O, I, O, I, O, I, O, I, O])
        ),
        Word::new([I, O, I, O, I, O, I, O, I, O, I, O, I, O, I, O])
    );
    assert_eq!(
        or16(
            Word::new([I, O, I, O, I, O, I, O, I, O, I, O, I, O, I, O]),
            Word::new([O, I, O, I, O, I, O, I, O, I, O, I, O, I, O, I])
        ),
        Word::new([I; 16])
    );
}

#[test]
fn for_mux16() {
    assert_eq!(mux16(Word::new([O; 16]), Word::new([O; 16]), O), Word::new([O; 16]));
    assert_eq!(mux16(Word::new([O; 16]), Word::new([I; 16]), O), Word::new([O; 16]));
    assert_eq!(mux16(Word::new([I; 16]), Word::new([O; 16]), O), Word::new([I; 16]));
    assert_eq!(mux16(Word::new([I; 16]), Word::new([I; 16]), O), Word::new([I; 16]));
    assert_eq!(mux16(Word::new([O; 16]), Word::new([O; 16]), I), Word::new([O; 16]));
    assert_eq!(mux16(Word::new([I; 16]), Word::new([O; 16]), I), Word::new([O; 16]));
    assert_eq!(mux16(Word::new([O; 16]), Word::new([I; 16]), I), Word::new([I; 16]));
    assert_eq!(mux16(Word::new([I; 16]), Word::new([I; 16]), I), Word::new([I; 16]));
    assert_eq!(
        mux16(
            Word::new([I, O, I, O, I, O, I, O, I, O, I, O, I, O, I, O]),
            Word::new([O, I, O, I, O, I, O, I, O, I, O, I, O, I, O, I]),
            O
        ),
        Word::new([I, O, I, O, I, O, I, O, I, O, I, O, I, O, I, O])
    );
    assert_eq!(
        mux16(
            Word::new([I, O, I, O, I, O, I, O, I, O, I, O, I, O, I, O]),
            Word::new([O, I, O, I, O, I, O, I, O, I, O, I, O, I, O, I]),
            I
        ),
        Word::new([O, I, O, I, O, I, O, I, O, I, O, I, O, I, O, I])
    );
}

#[test]
fn for_or8way() {
    assert_eq!(or8way([O; 8]), O);
    assert_eq!(or8way([I; 8]), I);
    assert_eq!(or8way([O, O, O, O, O, O, O, I]), I);
    assert_eq!(or8way([O, O, O, O, O, O, I, I]), I);
    assert_eq!(or8way([O, O, I, O, O, O, I, I]), I);
    assert_eq!(or8way([O, O, O, I, O, O, O, O]), I);
}

#[test]
fn for_mux2() {
    assert_eq!(mux2(I, O, O, O, [O, O]), I);
    assert_eq!(mux2(O, I, O, O, [O, I]), I);
    assert_eq!(mux2(O, O, I, O, [I, O]), I);
    assert_eq!(mux2(O, O, O, I, [I, I]), I);
}

#[test]
fn for_mux3() {
    assert_eq!(mux3(I, O, O, O, O, O, O, O, [O, O, O]), I);
    assert_eq!(mux3(O, I, O, O, O, O, O, O, [O, O, I]), I);
    assert_eq!(mux3(O, O, I, O, O, O, O, O, [O, I, O]), I);
    assert_eq!(mux3(O, O, O, I, O, O, O, O, [O, I, I]), I);
    assert_eq!(mux3(O, O, O, O, I, O, O, O, [I, O, O]), I);
    assert_eq!(mux3(O, O, O, O, O, I, O, O, [I, O, I]), I);
    assert_eq!(mux3(O, O, O, O, O, O, I, O, [I, I, O]), I);
    assert_eq!(mux3(O, O, O, O, O, O, O, I, [I, I, I]), I);
}

#[test]
fn for_mux4way16() {
    let zero = Word::new([O; 16]);
    let one = Word::new([I; 16]);
    assert_eq!(mux4way16(one, zero, zero, zero, [O, O]), one);
    assert_eq!(mux4way16(zero, one, zero, zero, [O, I]), one);
    assert_eq!(mux4way16(zero, zero, one, zero, [I, O]), one);
    assert_eq!(mux4way16(zero, zero, zero, one, [I, I]), one);
}

#[test]
fn for_mux8way16() {
    let zero = Word::new([O; 16]);
    let one = Word::new([I; 16]);
    assert_eq!(mux8way16(one, zero, zero, zero, zero, zero, zero, zero, [O, O, O]), one);
    assert_eq!(mux8way16(zero, one, zero, zero, zero, zero, zero, zero, [O, O, I]), one);
    assert_eq!(mux8way16(zero, zero, one, zero, zero, zero, zero, zero, [O, I, O]), one);
    assert_eq!(mux8way16(zero, zero, zero, one, zero, zero, zero, zero, [O, I, I]), one);
    assert_eq!(mux8way16(zero, zero, zero, zero, one, zero, zero, zero, [I, O, O]), one);
    assert_eq!(mux8way16(zero, zero, zero, zero, zero, one, zero, zero, [I, O, I]), one);
    assert_eq!(mux8way16(zero, zero, zero, zero, zero, zero, one, zero, [I, I, O]), one);
    assert_eq!(mux8way16(zero, zero, zero, zero, zero, zero, zero, one, [I, I, I]), one);
}

#[test]
fn for_dmux4way() {
    assert_eq!(dmux4way(I, [O, O]), [I, O, O, O]);
    assert_eq!(dmux4way(I, [O, I]), [O, I, O, O]);
    assert_eq!(dmux4way(I, [I, O]), [O, O, I, O]);
    assert_eq!(dmux4way(I, [I, I]), [O, O, O, I]);
}

#[test]
fn for_dmux8way() {
    assert_eq!(dmux8way(I, [O, O, O]), [I, O, O, O, O, O, O, O]);
    assert_eq!(dmux8way(I, [O, O, I]), [O, I, O, O, O, O, O, O]);
    assert_eq!(dmux8way(I, [O, I, O]), [O, O, I, O, O, O, O, O]);
    assert_eq!(dmux8way(I, [O, I, I]), [O, O, O, I, O, O, O, O]);
    assert_eq!(dmux8way(I, [I, O, O]), [O, O, O, O, I, O, O, O]);
    assert_eq!(dmux8way(I, [I, O, I]), [O, O, O, O, O, I, O, O]);
    assert_eq!(dmux8way(I, [I, I, O]), [O, O, O, O, O, O, I, O]);
    assert_eq!(dmux8way(I, [I, I, I]), [O, O, O, O, O, O, O, I]);
}

#[test]
fn for_word_from() {
    assert_eq!(Word::from_binary("0000000000000000").unwrap(), Word::new([O; 16]));
    assert_eq!(Word::from_binary("1111111111111111").unwrap(), Word::new([I; 16]));
    assert_eq!(
        Word::from_binary("0101010101010101").unwrap(),
        Word::new([O, I, O, I, O, I, O, I, O, I, O, I, O, I, O, I])
    );
    assert_eq!(
        Word::from_binary("0010101010101010").unwrap(),
        Word::new([O, O, I, O, I, O, I, O, I, O, I, O, I, O, I, O])
    );
}

#[test]
fn word_from_wrong_length() {
    assert_eq!(Word::from_binary("11"), Err(ParseError::WrongLength));
    assert_eq!(Word::from_binary(""), Err(ParseError::WrongLength));
    assert_eq!(Word::from_binary("00000000000000000"), Err(ParseError::WrongLength));
}

#[test]
fn word_from_bad_character() {
    assert_eq!(Word::from_binary("000000000000000a"), Err(ParseError::BadCharacter));
    assert_eq!(Word::from_binary("0000000000000002"), Err(ParseError::BadCharacter));
}

// The same gates exist in the original's second snapshot; these run the same
// checks under the names that distinguish the two.

#[test]
fn logic_for_nand() {
    assert_eq!(nand(O, O), I);
    assert_eq!(nand(I, O), I);
    assert_eq!(nand(O, I), I);
    assert_eq!(nand(I, I), O);
}

#[test]
fn logic_for_not() {
    assert_eq!(not(O), I);
    assert_eq!(not(I), O);
}

#[test]
fn logic_for_and() {
    assert_eq!(and(O, O), O);
    assert_eq!(and(I, O), O);
    assert_eq!(and(O, I), O);
    assert_eq!(and(I, I), I);
}

#[test]
fn logic_for_or() {
    assert_eq!(or(O, O), O);
    assert_eq!(or(I, O), I);
    assert_eq!(or(O, I), I);
    assert_eq!(or(I, I), I);
}

#[test]
fn logic_for_xor() {
    assert_eq!(xor(O, O), O);
    assert_eq!(xor(I, O), I);
    assert_eq!(xor(O, I), I);
    assert_eq!(xor(I, I), O);
}

#[test]
fn logic_for_mux() {
    assert_eq!(mux(O, O, O), O);
    assert_eq!(mux(O, I, O), O);
    assert_eq!(mux(I, O, O), I);
    assert_eq!(mux(I, I, O), I);
    assert_eq!(mux(O, O, I), O);
    assert_eq!(mux(O, I, I), I);
    assert_eq!(mux(I, O, I), O);
    assert_eq!(mux(I, I, I), I);
}

#[test]
fn logic_for_dmux() {
    assert_eq!(dmux(O, O), [O, O]);
    assert_eq!(dmux(O, I), [O, O]);
    assert_eq!(dmux(I, O), [I, O]);
    assert_eq!(dmux(I, I), [O, I]);
}

#[test]
fn logic_for_not16() {
    assert_eq!(not16(Word::new([O; 16])), Word::new([I; 16]));
    assert_eq!(not16(Word::new([I; 16])), Word::new([O; 16]));
    assert_eq!(
        not16(Word::new([I, O, I, O, I, O, I, O, I, O, I, O, I, O, I, O])),
        Word::new([O, I, O, I, O, I, O, I, O, I, O, I, O, I, O, I])
    );
    assert_eq!(
        not16(Word::new([I, I, I, O, I, O, I, O, I, O, I, O, I, I, I, O])),
        Word::new([O, O, O, I, O, I, O, I, O, I, O, I, O, O, O, I])
    );
}

#[test]
fn logic_for_and16() {
    assert_eq!(and16(Word::new([O; 16]), Word::new([O; 16])), Word::new([O; 16]));
    assert_eq!(and16(Word::new([I; 16]), Word::new([O; 16])), Word::new([O; 16]));
    assert_eq!(and16(Word::new([O; 16]), Word::new([I; 16])), Word::new([O; 16]));
    assert_eq!(and16(Word::new([I; 16]), Word::new([I; 16])), Word::new([I; 16]));
    assert_eq!(
        and16(
            Word::new([I, O, I, O, I, O, I, O, I, O, I, O, I, O, I, O]),
            Word::new([I, O, I, O, I, O, I, O, I, O, I, O, I, O, I, O])
        ),
        Word::new([I, O, I, O, I, O, I, O, I, O, I, O, I, O, I, O])
    );
    assert_eq!(
        and16(
            Word::new([I, O, I, O, I, O, I, O, I, O, I, O, I, O, I, O]),
            Word::new([O, I, O, I, O, I, O, I, O, I, O, I, O, I, O, I])
        ),
        Word::new([O; 16])
    );
}

#[test]
fn logic_for_or16() {
    assert_eq!(or16(Word::new([O; 16]), Word::new([O; 16])), Word::new([O; 16]));
    assert_eq!(or16(Word::new([I; 16]), Word::new([O; 16])), Word::new([I; 16]));
    assert_eq!(or16(Word::new([O; 16]), Word::new([I; 16])), Word::new([I; 16]));
    assert_eq!(or16(Word::new([I; 16]), Word::new([I; 16])), Word::new([I; 16]));
    assert_eq!(
        or16(
            Word::new([I, O, I, O, I, O, I, O, I, O, I, O, I, O, I, O]),
            Word::new([I, O, I, O, I, O, I, O, I, O, I, O, I, O, I, O])
        ),
        Word::new([I, O, I, O, I, O, I, O, I, O, I, O, I, O, I, O])
    );
    assert_eq!(
        or16(
            Word::new([I, O, I, O, I, O, I, O, I, O, I, O, I, O, I, O]),
            Word::new([O, I, O, I, O, I, O, I, O, I, O, I, O, I, O, I])
        ),
        Word::new([I; 16])
    );
}

#[test]
fn logic_for_mux16() {
    assert_eq!(mux16(Word::new([O; 16]), Word::new([O; 16]), O), Word::new([O; 16]));
    assert_eq!(mux16(Word::new([O; 16]), Word::new([I; 16]), O), Word::new([O; 16]));
    assert_eq!(mux16(Word::new([I; 16]), Word::new([O; 16]), O), Word::new([I; 16]));
    assert_eq!(mux16(Word::new([I; 16]), Word::new([I; 16]), O), Word::new([I; 16]));
    assert_eq!(mux16(Word::new([O; 16]), Word::new([O; 16]), I), Word::new([O; 16]));
    assert_eq!(mux16(Word::new([I; 16]), Word::new([O; 16]), I), Word::new([O; 16]));
    assert_eq!(mux16(Word::new([O; 16]), Word::new([I; 16]), I), Word::new([I; 16]));
    assert_eq!(mux16(Word::new([I; 16]), Word::new([I; 16]), I), Word::new([I; 16]));
    assert_eq!(
        mux16(
            Word::new([I, O, I, O, I, O, I, O, I, O, I, O, I, O, I, O]),
            Word::new([O, I, O, I, O, I, O, I, O, I, O, I, O, I, O, I]),
            O
        ),
        Word::new([I, O, I, O, I, O, I, O, I, O, I, O, I, O, I, O])
    );
    assert_eq!(
        mux16(
            Word::new([I, O, I, O, I, O, I, O, I, O, I, O, I, O, I, O]),
            Word::new([O, I, O, I, O, I, O, I, O, I, O, I, O, I, O, I]),
            I
        ),
        Word::new([O, I, O, I, O, I, O, I, O, I, O, I, O, I, O, I])
    );
}

#[test]
fn logic_for_or8way() {
    assert_eq!(or8way([O; 8]), O);
    assert_eq!(or8way([I; 8]), I);
    assert_eq!(or8way([O, O, O, O, O, O, O, I]), I);
    assert_eq!(or8way([O, O, O, O, O, O, I, I]), I);
    assert_eq!(or8way([O, O, I, O, O, O, I, I]), I);
    assert_eq!(or8way([O, O, O, I, O, O, O, O]), I);
}
