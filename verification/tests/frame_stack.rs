use scriptc::frame_stack::{FrameStackTree, Link};
use scriptc::tokenizer::{TokenType, Tokenizer};

#[test]
fn test_frame_stack() {
    /* fn a1() {      // 1
         fn b1() {}   // 2
         fn b2() {    // 3
          fn c1() {}  // 4
          fn c2() {}  // 5
         }
         fn b3() {    // 6
          fn c1() {}  // 7
         }
       }
     */

    let mut fstack = FrameStackTree::new();
    fstack.add_child();
    fstack.enter(); // a1
    fstack.add_child();
    fstack.enter();
    fstack.exit(); // b1

    assert_eq!(
        fstack.links,
        [
            Link { children: vec![1], parent: 0 }, // root
            Link { children: vec![2], parent: 0 }, // a1
            Link { children: vec![], parent: 1 },  // b1
        ]
    );
    assert_eq!(fstack.cur_frame, 1);
    assert_eq!(fstack.next_frame, 0);

    fstack.add_child(); // b2
    fstack.enter(); // b2
    fstack.add_child();
    fstack.enter();
    fstack.exit(); // c1
    fstack.add_child();
    fstack.enter();
    fstack.exit(); // c2
    fstack.exit(); // b2

    assert_eq!(
        fstack.links,
        [
            Link { children: vec![1], parent: 0 },    // root
            Link { children: vec![2, 3], parent: 0 }, // a1
            Link { children: vec![], parent: 1 },     // b1
            Link { children: vec![4, 5], parent: 1 }, // b2
            Link { children: vec![], parent: 3 },     // c1
            Link { children: vec![], parent: 3 },     // c2
        ]
    );
    assert_eq!(fstack.cur_frame, 1);
    assert_eq!(fstack.next_frame, 0);

    fstack.add_child(); // b3
    fstack.enter(); // b3
    fstack.add_child();
    fstack.enter();
    fstack.exit(); // c1
    fstack.exit(); // b3
    fstack.exit(); // a1

    assert_eq!(
        fstack.links,
        [
            Link { children: vec![1], parent: 0 },       // root
            Link { children: vec![2, 3, 6], parent: 0 }, // a1
            Link { children: vec![], parent: 1 },        // b1
            Link { children: vec![4, 5], parent: 1 },    // b2
            Link { children: vec![], parent: 3 },        // c1
            Link { children: vec![], parent: 3 },        // c2
            Link { children: vec![7], parent: 1 },       // b3
            Link { children: vec![], parent: 6 },        // c1
        ]
    );
    assert_eq!(fstack.cur_frame, 0);
    assert_eq!(fstack.next_frame, 0);

    fstack.reset();
    fstack.enter();
    fstack.enter();
    assert_eq!(fstack.cur_frame, 2);

    fstack.exit();
    fstack.enter();
    fstack.enter();
    fstack.exit();
    assert_eq!(fstack.next_frame, 5);
    fstack.enter();
    fstack.exit();
    assert_eq!(fstack.cur_frame, 3);
    fstack.exit();
    assert_eq!(fstack.next_frame, 6);
    fstack.enter();
    assert_eq!(fstack.next_frame, 7);
}

#[test]
fn put_var_is_idempotent() {
    let mut fstack = FrameStackTree::new();
    fstack.put_var(&String::from("x"));
    fstack.put_var(&String::from("x"));
    assert_eq!(fstack.frames()[0].var_offsets, vec!["this".to_string(), "x".to_string()]);
}

#[test]
fn find_var_walks_parents() {
    let mut fstack = FrameStackTree::new();
    fstack.put_var(&String::from("g"));
    fstack.add_child();
    fstack.enter();
    fstack.put_var(&String::from("a"));
    let d = fstack.find_var(&String::from("g")).unwrap();
    assert_eq!(d.frame_offset, 1);
    assert_eq!(d.var_offset, 1);
    assert_eq!(d.frame_id, 0);
    let a = fstack.find_var(&String::from("a")).unwrap();
    assert_eq!(a.frame_offset, 0);
    assert_eq!(a.var_offset, 1);
    assert_eq!(a.frame_id, 1);
    assert!(fstack.find_var(&String::from("zz")).is_none());
}

#[test]
fn tokenize_simple_assignment() {
    let mut t = Tokenizer::new("x = 1;");
    let toks = t.tokenize().unwrap();
    let kinds: Vec<TokenType> = toks.iter().map(|t| t.type_).collect();
    assert_eq!(
        kinds,
        vec![TokenType::Sym, TokenType::Assign, TokenType::Num, TokenType::End, TokenType::Eof]
    );
    assert_eq!(toks[0].text, "x");
    assert_eq!(toks[2].text, "1");
    assert_eq!(toks[0].line, 1);
    assert_eq!(toks[0].col, 0);
}

#[test]
fn tokenize_operators_and_comments() {
    let mut t = Tokenizer::new("a <= b // trailing\nc != 'str'");
    let toks = t.tokenize().unwrap();
    let kinds: Vec<TokenType> = toks.iter().map(|t| t.type_).collect();
    assert_eq!(
        kinds,
        vec![
            TokenType::Sym,
            TokenType::OpLsEq,
            TokenType::Sym,
            TokenType::Sym,
            TokenType::OpNotEq,
            TokenType::Str,
            TokenType::Eof
        ]
    );
    assert_eq!(toks[5].text, "'str'");
    assert_eq!(toks[3].line, 2);
}

#[test]
fn tokenize_lone_ampersand_is_an_error() {
    let mut t = Tokenizer::new("a & b");
    let e = t.tokenize().unwrap_err();
    assert_eq!(e.line, 1);
    assert_eq!(e.col, 3);
    assert_eq!(e.ch, Some(' '));
}

#[test]
fn put_arg_keeps_this_at_slot_zero() {
    let mut fstack = FrameStackTree::new();
    fstack.add_child();
    fstack.enter();
    fstack.put_arg(String::from("p1"));
    fstack.put_arg(String::from("p2"));
    // formals land in reverse order after the reserved `this` slot
    assert_eq!(
        fstack.frames()[1].var_offsets,
        vec!["this".to_string(), "p2".to_string(), "p1".to_string()]
    );
}
