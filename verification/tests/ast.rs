//! Parsing whole texts.
use libporte::ast::parse_and_valid;
use libporte::lexer_slice::LexerSlice;

#[test]
fn easy() {
    let s = r#"[1,2,3,{}]"#;
    let s: Vec<char> = s.chars().collect();
    let s = LexerSlice::new(&s);
    let p = parse_and_valid(s);
    p.unwrap();
}

#[test]
fn complete() {
    let s = r#"
        {
            "accounting" : [
                               { "firstName" : "John",
                                 "lastName"  : "Doe",
                                 "age"       : 23,
                                 "male"      : true},

                               { "firstName" : "Mary",
                                 "lastName"  : "Smith",
                                  "age"      : 32 }
                           ],
            "sales"      : [
                               { "firstName" : "Sally",
                                 "lastName"  : "Green",
                                  "age"      : 27 ,
                                  "male"      : false},

                               { "firstName" : "Jim",
                                 "lastName"  : "Galley",
                                 "age"       : 41 }
                           ]
          } "#;
    let s: Vec<char> = s.chars().collect();
    let s = LexerSlice::new(&s);
    let p = parse_and_valid(s);
    p.unwrap();
}
