use tokenizer::ClassToken;
use tokenizer::Error;
use tokenizer::PositionedToken;
use tokenizer::TokenCopy;
use tokenizer::TokenText;
use tokenizer::Tokenizer;
use tokenizer::TypeEq;

#[derive(Debug, Clone, PartialEq)]
enum Token {
    A(String),
    Space,
    Unknown,
}

impl TypeEq for Token {
    fn class_eq(self, other: Self) -> bool {
        match (&self, &other) {
            (Token::A(_), Token::A(_)) => true,
            (Token::Space, Token::Space) => true,
            (Token::Unknown, Token::Unknown) => true,
            _ => false,
        }
    }

    fn type_eq(&self, other: &Self) -> bool {
        match (self, other) {
            (Token::A(_), Token::A(_)) => true,
            (Token::Space, Token::Space) => true,
            (Token::Unknown, Token::Unknown) => true,
            _ => false,
        }
    }
}

impl TokenCopy for Token {
    fn duplicate(&self) -> Self {
        self.clone()
    }
}

impl TokenText for Token {
    fn text_spec(self) -> vstd::seq::Seq<char> {
        unreachable!()
    }

    fn text(&self) -> String {
        format!("{:?}", self)
    }
}

/// Scans `code` as an external scanner for this sample grammar would:
/// maximal runs of `a` become `A` tokens, single blanks become `Space`,
/// anything else becomes `Unknown`, each with its byte span.
fn lex(code: &str) -> Vec<PositionedToken<Token>> {
    let bytes = code.as_bytes();
    let mut out: Vec<PositionedToken<Token>> = Vec::new();
    let mut i: usize = 0;
    while i < bytes.len() {
        let start: usize = i;
        if bytes[i] == b'a' {
            while i < bytes.len() && bytes[i] == b'a' {
                i += 1;
            }
            out.push(PositionedToken {
                token: Token::A(code[start..i].to_string()),
                index: start,
                len: i - start,
            });
        } else if bytes[i] == b' ' {
            i += 1;
            out.push(PositionedToken { token: Token::Space, index: start, len: 1 });
        } else {
            i += 1;
            out.push(PositionedToken { token: Token::Unknown, index: start, len: 1 });
        }
    }
    out
}

fn a(s: &str) -> Token {
    Token::A(s.to_string())
}

#[test]
fn main() {
    let code = "  aa aaaa aa a";
    let mut tokenizer = Tokenizer::new(lex(code), vec![Token::Space]);

    assert_eq!(tokenizer.current(), None);
    assert_eq!(tokenizer.peek(), Some(Token::A("aa".to_string())));
    assert_eq!(tokenizer.advance(), Some(Token::A("aa".to_string())));

    assert_eq!(tokenizer.current(), Some(Token::A("aa".to_string())));
    assert_eq!(tokenizer.peek(), Some(Token::A("aaaa".to_string())));
    assert_eq!(tokenizer.advance(), Some(Token::A("aaaa".to_string())));

    assert_eq!(tokenizer.advance(), Some(Token::A("aa".to_string())));
    assert_eq!(tokenizer.current(), Some(Token::A("aa".to_string())));
    assert_eq!(tokenizer.peek(), Some(Token::A("a".to_string())));

    assert_eq!(tokenizer.advance(), Some(Token::A("a".to_string())));
    assert_eq!(tokenizer.peek(), None);
    assert_eq!(tokenizer.current(), Some(Token::A("a".to_string())));

    assert_eq!(tokenizer.advance(), None);
    assert_eq!(tokenizer.current(), None);
    assert_eq!(tokenizer.peek(), None);
}

#[test]
fn ignore_transparency_full_traversal() {
    let code = "  aa aaaa aa a";
    let mut t = Tokenizer::new(lex(code), vec![Token::Space]);
    loop {
        if let Some(c) = t.current() {
            assert!(!matches!(c, Token::Space));
        }
        if let Some(p) = t.peek() {
            assert!(!matches!(p, Token::Space));
        }
        if t.advance().is_none() {
            break;
        }
    }
}

#[test]
fn order_preservation_drain_all() {
    let code = "  aa aaaa aa a";
    let mut t = Tokenizer::new(lex(code), vec![Token::Space]);
    let all = t.drain_all();
    assert_eq!(all, vec![a("aa"), a("aaaa"), a("aa"), a("a")]);
    assert_eq!(t.advance(), None);
}

#[test]
fn idempotent_termination() {
    let mut t = Tokenizer::new(lex("a"), vec![Token::Space]);
    assert_eq!(t.advance(), Some(a("a")));
    assert_eq!(t.advance(), None);
    assert_eq!(t.advance(), None);
    assert_eq!(t.advance(), None);
    assert_eq!(t.current(), None);
    assert_eq!(t.peek(), None);
}

#[test]
fn expect_consumes_on_success() {
    let mut t = Tokenizer::new(lex("aa aaaa"), vec![Token::Space]);
    assert_eq!(t.advance(), Some(a("aa")));
    let r = t.expect(a(""));
    assert_eq!(r, Ok(a("aa")));
    assert_eq!(t.current(), Some(a("aaaa")));
    assert_eq!(t.peek(), None);
}

#[test]
fn expect_mismatch_message_and_position() {
    let code = "  aa aaaa aa a";
    let mut t = Tokenizer::new(lex(code), vec![Token::Space]);
    assert_eq!(t.advance(), Some(a("aa")));
    let r = t.expect(Token::Space);
    let e = r.unwrap_err();
    assert_eq!(e.msg, "expect token Space but got A(\"aa\")".to_string());
    assert!(e.msg.contains("Space"));
    assert!(e.msg.contains("A(\"aa\")"));
    assert_eq!(e.index, Some(2));
    assert_eq!(e.len, Some(2));
    assert_eq!(t.current(), Some(a("aa")));
    assert_eq!(t.peek(), Some(a("aaaa")));
}

#[test]
fn expect_at_end_of_file() {
    let mut t = Tokenizer::new(lex(""), vec![Token::Space]);
    let e = t.expect(Token::Space).unwrap_err();
    assert_eq!(e.msg, "expect token Space but got end of file".to_string());
    assert_eq!(e.index, None);
    assert_eq!(e.len, None);
}

#[test]
fn expect_before_first_advance() {
    let mut t = Tokenizer::new(lex("aa"), vec![Token::Space]);
    let e = t.expect(a("")).unwrap_err();
    assert_eq!(e.msg, "expect token A(\"\") but got end of file".to_string());
    assert_eq!(e.index, None);
    assert_eq!(e.len, None);
    assert_eq!(t.peek(), Some(a("aa")));
}

#[test]
fn expect_multi_success() {
    let mut t = Tokenizer::new(lex("aa a"), vec![Token::Space]);
    assert_eq!(t.advance(), Some(a("aa")));
    let r = t.expect_multi(vec![Token::Space, a("")]);
    assert_eq!(r, Ok(a("aa")));
    assert_eq!(t.current(), Some(a("a")));
}

#[test]
fn expect_multi_mismatch_message() {
    let mut t = Tokenizer::new(lex("aa"), vec![Token::Space]);
    assert_eq!(t.advance(), Some(a("aa")));
    let e = t.expect_multi(vec![Token::Space, Token::Unknown]).unwrap_err();
    assert_eq!(e.msg, "expect tokens [Space, Unknown] but got A(\"aa\")".to_string());
    assert_eq!(e.index, Some(0));
    assert_eq!(e.len, Some(2));
    assert_eq!(t.current(), Some(a("aa")));
}

#[test]
fn expect_multi_at_end_of_file() {
    let mut t = Tokenizer::new(lex(""), vec![Token::Space]);
    let e = t.expect_multi(vec![Token::Space, Token::Unknown]).unwrap_err();
    assert_eq!(e.msg, "expect tokens [Space, Unknown] but got end of file".to_string());
    assert_eq!(e.index, None);
    assert_eq!(e.len, None);
}

#[test]
fn expect_multi_single_element_list() {
    let mut t = Tokenizer::new(lex(""), vec![Token::Space]);
    let e = t.expect_multi(vec![Token::Unknown]).unwrap_err();
    assert_eq!(e.msg, "expect tokens [Unknown] but got end of file".to_string());
}

#[test]
fn is_and_is_multi() {
    let mut t = Tokenizer::new(lex("aa b"), vec![Token::Space]);
    assert!(!t.is(a("")));
    assert_eq!(t.advance(), Some(a("aa")));
    assert!(t.is(a("zzz")));
    assert!(!t.is(Token::Space));
    assert!(t.is_multi(vec![Token::Space, a("")]));
    assert!(!t.is_multi(vec![Token::Space, Token::Unknown]));
    assert!(!t.is_multi(vec![]));
}

#[test]
fn next_is_and_next_is_multi() {
    let mut t = Tokenizer::new(lex("aa b"), vec![Token::Space]);
    assert!(t.next_is(a("")));
    assert!(!t.next_is(Token::Unknown));
    assert!(t.next_is_multi(vec![Token::Unknown, a("")]));
    assert!(!t.next_is_multi(vec![Token::Unknown, Token::Space]));
    assert_eq!(t.advance(), Some(a("aa")));
    assert!(t.next_is(Token::Unknown));
    assert_eq!(t.advance(), Some(Token::Unknown));
    assert!(!t.next_is(Token::Unknown));
    assert!(!t.next_is_multi(vec![Token::Unknown, Token::Space, a("")]));
}

#[test]
fn error_carries_current_position() {
    let code = "  aa aaaa aa a";
    let mut t = Tokenizer::new(lex(code), vec![Token::Space]);
    let before = t.error("grammar trouble");
    assert_eq!(before.index, None);
    assert_eq!(before.len, None);
    assert_eq!(before.msg, "grammar trouble".to_string());
    assert_eq!(t.advance(), Some(a("aa")));
    assert_eq!(t.advance(), Some(a("aaaa")));
    let e = t.error("grammar trouble");
    assert_eq!(e.index, Some(5));
    assert_eq!(e.len, Some(4));
    assert_eq!(e.msg, "grammar trouble".to_string());
}

#[test]
fn error_new_builds_parts() {
    let e = Error::new(Some(3), Some(7), "boom".to_string());
    assert_eq!(e.index, Some(3));
    assert_eq!(e.len, Some(7));
    assert_eq!(e.msg, "boom".to_string());
    let n = Error::new(None, None, "quiet".to_string());
    assert_eq!(n.index, None);
    assert_eq!(n.len, None);
}

#[test]
fn empty_source() {
    let mut t = Tokenizer::new(Vec::new(), vec![Token::Space]);
    assert_eq!(t.current(), None);
    assert_eq!(t.peek(), None);
    assert_eq!(t.advance(), None);
    assert_eq!(t.advance(), None);
}

#[test]
fn all_ignorable_source() {
    let mut t = Tokenizer::new(lex("    "), vec![Token::Space]);
    assert_eq!(t.peek(), None);
    assert_eq!(t.advance(), None);
    assert_eq!(t.current(), None);
}

#[test]
fn empty_ignore_set_surfaces_everything() {
    let mut t = Tokenizer::new(lex(" a "), Vec::new());
    assert_eq!(t.peek(), Some(Token::Space));
    assert_eq!(t.advance(), Some(Token::Space));
    assert_eq!(t.advance(), Some(a("a")));
    assert_eq!(t.advance(), Some(Token::Space));
    assert_eq!(t.advance(), None);
}

#[test]
fn positions_reflect_underlying_spans() {
    let code = "  aa aaaa aa a";
    let mut t = Tokenizer::new(lex(code), vec![Token::Space]);
    assert_eq!(t.advance(), Some(a("aa")));
    let e1 = t.error("x");
    assert_eq!((e1.index, e1.len), (Some(2), Some(2)));
    assert_eq!(t.advance(), Some(a("aaaa")));
    let e2 = t.error("x");
    assert_eq!((e2.index, e2.len), (Some(5), Some(4)));
    assert_eq!(t.advance(), Some(a("aa")));
    let e3 = t.error("x");
    assert_eq!((e3.index, e3.len), (Some(10), Some(2)));
    assert_eq!(t.advance(), Some(a("a")));
    let e4 = t.error("x");
    assert_eq!((e4.index, e4.len), (Some(13), Some(1)));
}

#[test]
fn class_token_ready_made() {
    let src = vec![
        PositionedToken {
            token: ClassToken { class: 1, display: "Space".to_string() },
            index: 0,
            len: 1,
        },
        PositionedToken {
            token: ClassToken { class: 0, display: "A(\"aa\")".to_string() },
            index: 1,
            len: 2,
        },
    ];
    let ignore = vec![ClassToken { class: 1, display: "Space".to_string() }];
    let mut t = Tokenizer::new(src, ignore);
    let got = t.advance().unwrap();
    assert_eq!(got.class, 0);
    assert_eq!(got.display, "A(\"aa\")".to_string());
    let e = t.expect(ClassToken { class: 1, display: "Space".to_string() }).unwrap_err();
    assert_eq!(e.msg, "expect token Space but got A(\"aa\")".to_string());
    assert_eq!(e.index, Some(1));
    assert_eq!(e.len, Some(2));
}

#[test]
fn multiple_ignored_classes() {
    let mut t = Tokenizer::new(lex(" b aa "), vec![Token::Space, Token::Unknown]);
    assert_eq!(t.peek(), Some(a("aa")));
    assert_eq!(t.advance(), Some(a("aa")));
    assert_eq!(t.advance(), None);
}
