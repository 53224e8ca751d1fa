use compiler::lexer::Lexer;
use compiler::token::TokenKind::{
    And, At, Char, Colon, Comma, Comment, CurlyL, CurlyR, Div, Dot, DoubleColon, DoubleEquals,
    DoublePlus, End, Equals, Float, Identifier, Int, Invalid, LineBreak, Minus, Or, ParenL, ParenR,
    Plus, SquareL, SquareR, String, Struct, ThickArrow, ThinArrow, Times, Trait, Union, WhiteSpace,
};
use compiler::token::{Token, TokenKind};

fn scan_all(text: &str) -> Vec<(TokenKind, usize, usize)> {
    let mut lexer = Lexer::new(text);
    let mut out = Vec::new();
    loop {
        let t = lexer.next();
        out.push((t.kind, t.start, t.end));
        if t.kind == TokenKind::End {
            return out;
        }
        assert!(out.len() <= text.len() + 1);
    }
}


#[test]
fn assignment_of_an_integer() {
    assert_eq!(
        scan_all("a = 1"),
        vec![
            (Identifier, 0, 1),
            (WhiteSpace, 1, 2),
            (Equals, 2, 3),
            (WhiteSpace, 3, 4),
            (Int, 4, 5),
            (End, 5, 5)
        ]
    );
}

#[test]
fn second_decimal_point_is_invalid() {
    assert_eq!(scan_all("1.2.3"), vec![(Invalid, 0, 5), (End, 5, 5)]);
}

#[test]
fn line_comment_stops_before_line_break() {
    assert_eq!(
        scan_all("// hi\nx"),
        vec![(Comment, 0, 5), (LineBreak, 5, 6), (Identifier, 6, 7), (End, 7, 7)]
    );
}

#[test]
fn two_characters_in_quotes_are_invalid() {
    assert_eq!(scan_all("'ab'"), vec![(Invalid, 0, 4), (End, 4, 4)]);
}

#[test]
fn unterminated_block_comment_is_invalid() {
    assert_eq!(scan_all("/* unterminated"), vec![(Invalid, 0, 15), (End, 15, 15)]);
}

#[test]
fn arrows() {
    assert_eq!(scan_all("->=>"), vec![(ThinArrow, 0, 2), (ThickArrow, 2, 4), (End, 4, 4)]);
}

#[test]
fn empty_input_yields_end() {
    assert_eq!(scan_all(""), vec![(End, 0, 0)]);
}

#[test]
fn end_repeats_with_the_same_span() {
    let mut lexer = Lexer::new("x");
    assert_eq!(lexer.next(), Token::new(Identifier, 0, 1));
    for _ in 0..3 {
        let t = lexer.next();
        assert_eq!((t.kind, t.start, t.end), (End, 1, 1));
    }
}

#[test]
fn invalid_character_absorbs_the_rest() {
    let mut lexer = Lexer::new("a # b c");
    assert_eq!(lexer.next().kind, Identifier);
    assert_eq!(lexer.next().kind, WhiteSpace);
    let t = lexer.next();
    assert_eq!((t.kind, t.start, t.end), (Invalid, 2, 7));
    let t = lexer.next();
    assert_eq!((t.kind, t.start, t.end), (End, 7, 7));
}

#[test]
fn reserved_words() {
    assert_eq!(scan_all("struct")[0], (Struct, 0, 6));
    assert_eq!(scan_all("union")[0], (Union, 0, 5));
    assert_eq!(scan_all("trait")[0], (Trait, 0, 5));
    assert_eq!(scan_all("or")[0], (Or, 0, 2));
    assert_eq!(scan_all("and")[0], (And, 0, 3));
}

#[test]
fn words_near_reserved_ones_are_identifiers() {
    assert_eq!(scan_all("orange")[0], (Identifier, 0, 6));
    assert_eq!(scan_all("Or")[0], (Identifier, 0, 2));
    assert_eq!(scan_all("structs")[0], (Identifier, 0, 7));
    assert_eq!(scan_all("an")[0], (Identifier, 0, 2));
    assert_eq!(scan_all("_trait_")[0], (Identifier, 0, 7));
}

#[test]
fn word_stops_at_a_digit() {
    assert_eq!(scan_all("ab1"), vec![(Identifier, 0, 2), (Int, 2, 3), (End, 3, 3)]);
}

#[test]
fn spans_tile_the_input() {
    let text = "id = [T](a: T) => T: (a)\n  say_hi :: () -> print(3.5) + x++ /* c */ \"s\" 'q'";
    let tokens = scan_all(text);
    let mut at = 0;
    for (i, (kind, start, end)) in tokens.iter().enumerate() {
        assert_eq!(*start, at);
        if i + 1 < tokens.len() {
            assert!(start < end);
            assert_ne!(*kind, Invalid);
        }
        at = *end;
    }
    assert_eq!(tokens.last(), Some(&(End, text.len(), text.len())));
}

#[test]
fn whitespace_run_is_one_token() {
    assert_eq!(
        scan_all(" \t\r \n\n"),
        vec![(WhiteSpace, 0, 4), (LineBreak, 4, 5), (LineBreak, 5, 6), (End, 6, 6)]
    );
}

#[test]
fn single_character_tokens() {
    assert_eq!(
        scan_all("@,*()[]{}."),
        vec![
            (At, 0, 1),
            (Comma, 1, 2),
            (Times, 2, 3),
            (ParenL, 3, 4),
            (ParenR, 4, 5),
            (SquareL, 5, 6),
            (SquareR, 6, 7),
            (CurlyL, 7, 8),
            (CurlyR, 8, 9),
            (Dot, 9, 10),
            (End, 10, 10)
        ]
    );
}

#[test]
fn operators_with_lookahead() {
    assert_eq!(
        scan_all("- = == + ++ : :: / =>"),
        vec![
            (Minus, 0, 1),
            (WhiteSpace, 1, 2),
            (Equals, 2, 3),
            (WhiteSpace, 3, 4),
            (DoubleEquals, 4, 6),
            (WhiteSpace, 6, 7),
            (Plus, 7, 8),
            (WhiteSpace, 8, 9),
            (DoublePlus, 9, 11),
            (WhiteSpace, 11, 12),
            (Colon, 12, 13),
            (WhiteSpace, 13, 14),
            (DoubleColon, 14, 16),
            (WhiteSpace, 16, 17),
            (Div, 17, 18),
            (WhiteSpace, 18, 19),
            (ThickArrow, 19, 21),
            (End, 21, 21)
        ]
    );
}

#[test]
fn operator_at_end_of_input() {
    assert_eq!(scan_all("-"), vec![(Minus, 0, 1), (End, 1, 1)]);
    assert_eq!(scan_all("="), vec![(Equals, 0, 1), (End, 1, 1)]);
    assert_eq!(scan_all("/"), vec![(Div, 0, 1), (End, 1, 1)]);
}

#[test]
fn numbers() {
    assert_eq!(scan_all("42")[0], (Int, 0, 2));
    assert_eq!(scan_all("1_000")[0], (Int, 0, 5));
    assert_eq!(scan_all("3.14")[0], (Float, 0, 4));
    assert_eq!(scan_all("1._")[0], (Float, 0, 3));
    assert_eq!(scan_all("7 ")[0], (Int, 0, 1));
}

#[test]
fn trailing_decimal_point_is_invalid() {
    assert_eq!(scan_all("1."), vec![(Invalid, 0, 2), (End, 2, 2)]);
    assert_eq!(scan_all("1.x y"), vec![(Invalid, 0, 5), (End, 5, 5)]);
}

#[test]
fn block_comments() {
    assert_eq!(scan_all("/* a */x"), vec![(Comment, 0, 7), (Identifier, 7, 8), (End, 8, 8)]);
    assert_eq!(scan_all("/**/"), vec![(Comment, 0, 4), (End, 4, 4)]);
    assert_eq!(scan_all("/* /* */ */")[0], (Comment, 0, 8));
    assert_eq!(scan_all("/*/"), vec![(Invalid, 0, 3), (End, 3, 3)]);
}

#[test]
fn line_comment_at_end_of_input() {
    assert_eq!(scan_all("//"), vec![(Comment, 0, 2), (End, 2, 2)]);
}

#[test]
fn string_literals() {
    assert_eq!(scan_all("\"hi\" "), vec![(String, 0, 4), (WhiteSpace, 4, 5), (End, 5, 5)]);
    assert_eq!(scan_all("\"\"")[0], (String, 0, 2));
    assert_eq!(scan_all("\"a\\\"b\"")[0], (String, 0, 4));
    assert_eq!(scan_all("\"open"), vec![(Invalid, 0, 5), (End, 5, 5)]);
}

#[test]
fn char_literals() {
    assert_eq!(scan_all("'a'"), vec![(Char, 0, 3), (End, 3, 3)]);
    assert_eq!(scan_all("''"), vec![(Invalid, 0, 2), (End, 2, 2)]);
    assert_eq!(scan_all("'"), vec![(Invalid, 0, 1), (End, 1, 1)]);
    assert_eq!(scan_all("'a"), vec![(Invalid, 0, 2), (End, 2, 2)]);
}

#[test]
fn multibyte_characters_use_byte_offsets() {
    assert_eq!(scan_all("'é'"), vec![(Char, 0, 4), (End, 4, 4)]);
    assert_eq!(scan_all("'😀'"), vec![(Char, 0, 6), (End, 6, 6)]);
    assert_eq!(scan_all("\"ü\"x")[0], (String, 0, 4));
    assert_eq!(scan_all("// ä\nx")[1], (LineBreak, 5, 6));
    assert_eq!(scan_all("é x"), vec![(Invalid, 0, 4), (End, 4, 4)]);
}

#[test]
fn hashtag_is_not_produced() {
    assert_eq!(scan_all("#"), vec![(Invalid, 0, 1), (End, 1, 1)]);
}

#[test]
fn token_new_keeps_its_fields() {
    let t = Token::new(Float, 3, 9);
    assert_eq!((t.kind, t.start, t.end), (Float, 3, 9));
}

#[test]
fn cloned_lexer_scans_independently() {
    let mut a = Lexer::new("x y");
    a.next();
    let mut b = a.clone();
    assert_eq!(a.next(), b.next());
    assert_eq!(a.next().kind, Identifier);
}

#[test]
fn lexemes_match_their_kinds() {
    let text = "x_y 1_2 3.5 \"s t\" 'c' or -> ::";
    let lexemes: Vec<(TokenKind, &str)> = scan_all(text)
        .into_iter()
        .filter(|(k, _, _)| *k != WhiteSpace && *k != End)
        .map(|(k, s, e)| (k, &text[s..e]))
        .collect();
    assert_eq!(
        lexemes,
        vec![
            (Identifier, "x_y"),
            (Int, "1_2"),
            (Float, "3.5"),
            (String, "\"s t\""),
            (Char, "'c'"),
            (Or, "or"),
            (ThinArrow, "->"),
            (DoubleColon, "::")
        ]
    );
}
