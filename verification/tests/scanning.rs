use racer::collab::{AstParser, Session, StatementIterator};
use racer::pos::{BytePos, ByteRange};
use racer::scopes::{
    closure_scope_source, enclosing_module_body, end_of_next_scope, expect_stmt_start, find_close,
    find_closing_paren, find_closure_scope_start, find_impl_start, find_impl_step,
    find_let_start, find_open_before, find_stmt_start, generate_skeleton_for_parsing,
    get_line, get_local_module_path, get_module_file_from_path, get_start_of_pattern,
    get_start_of_search_expr, let_start_in, mask_comments, mask_sub_scopes,
    path_attribute_places, path_attributes_at, pick_scope_start,
    scope_boundaries, scope_start, split_into_context_and_completion, stmt_start_in, ImplStep,
    ScopeError,
};
use racer::source::{IndexedSource, Src};
use racer::symbols::{CompletionType, EnumVariant, ExternCrate, PathAlias};

fn range(start: usize, end: usize) -> ByteRange {
    ByteRange::new(BytePos(start), BytePos(end))
}

fn text(bytes: &[u8]) -> &str {
    std::str::from_utf8(bytes).unwrap()
}

fn plain(code: &str) -> IndexedSource {
    IndexedSource::without_comments(code.as_bytes().to_vec())
}

/// Splits at `;` and at the `}` that closes a block, and answers for fixed files.
struct Env {
    closures: bool,
    files: Vec<&'static str>,
}

fn env() -> Env {
    Env { closures: true, files: Vec::new() }
}

impl StatementIterator for Env {
    fn iter_stmts(&self, src: Src<'_>) -> Vec<ByteRange> {
        let bytes = src.as_bytes();
        let mut out = Vec::new();
        let mut i = 0;
        loop {
            while i < bytes.len() && (bytes[i] as char).is_whitespace() {
                i += 1;
            }
            if i >= bytes.len() {
                return out;
            }
            let start = i;
            let mut depth = 0usize;
            let attribute = bytes[i] == b'#';
            loop {
                if i >= bytes.len() {
                    out.push(range(start, i));
                    return out;
                }
                let b = bytes[i];
                i += 1;
                if attribute {
                    if b == b']' {
                        break;
                    }
                } else if b == b'{' {
                    depth += 1;
                } else if b == b'}' {
                    if depth == 0 {
                        return out;
                    }
                    depth -= 1;
                    if depth == 0 && !bytes[start..].starts_with(b"let") {
                        break;
                    }
                } else if b == b';' && depth == 0 {
                    break;
                }
            }
            out.push(range(start, i));
        }
    }
}

impl AstParser for Env {
    fn closure_valid_arg_scope(&self, text: &[u8]) -> bool {
        self.closures && text.iter().filter(|b| **b == b'|').count() >= 2
    }

    fn parse_mod(&self, text: &[u8]) -> Option<Vec<u8>> {
        let text = std::str::from_utf8(text).ok()?;
        let rest = text.trim_start_matches("pub ").strip_prefix("mod ")?;
        Some(rest.chars().take_while(|c| c.is_alphanumeric()).collect::<String>().into_bytes())
    }

    fn parse_pat_bind_stmt(&self, _text: &[u8]) -> Vec<ByteRange> {
        Vec::new()
    }

    fn parse_enum(&self, _text: &[u8]) -> Vec<EnumVariant> {
        Vec::new()
    }

    fn parse_generics(&self, _header: &[u8], _filepath: &[u8]) -> Vec<Vec<u8>> {
        Vec::new()
    }

    fn parse_extern_crate(&self, _text: &[u8]) -> ExternCrate {
        ExternCrate { name: None, realname: None }
    }

    fn parse_use(&self, _text: &[u8]) -> Vec<PathAlias> {
        Vec::new()
    }

    fn first_param_is_self(&self, _text: &[u8]) -> bool {
        false
    }
}

impl Session for Env {
    fn load_file(&self, _path: &[u8]) -> Vec<u8> {
        Vec::new()
    }

    fn contains_file(&self, path: &[u8]) -> bool {
        self.files.iter().any(|f| f.as_bytes() == path)
    }

    fn parent_dir(&self, _path: &[u8]) -> Option<Vec<u8>> {
        None
    }

    fn join(&self, dir: &[u8], name: &[u8]) -> Vec<u8> {
        let mut out = dir.to_vec();
        out.push(b'/');
        out.extend_from_slice(name);
        out
    }

    fn std_path(&self) -> Option<Vec<u8>> {
        None
    }
}

#[test]
fn find_close_balances_brackets() {
    assert_eq!(find_close("a(b)c)d".as_bytes(), b'(', b')', 0), Some(BytePos(5)));
    assert_eq!(find_close("a(b(c))".as_bytes(), b'(', b')', 0), None);
    assert_eq!(find_close("{a{b}c}d}".as_bytes(), b'{', b'}', 1), Some(BytePos(6)));
    assert_eq!(find_close("}{a}".as_bytes(), b'{', b'}', 1), None);
    assert_eq!(find_close("{a".as_bytes(), b'{', b'}', 1), None);
    assert_eq!(find_close("".as_bytes(), b'{', b'}', 0), None);
    assert_eq!(find_open_before("a{b{c}d".as_bytes(), b'{', b'}', BytePos(7)), Some(BytePos(1)));
    assert_eq!(find_open_before("a{b{c}d".as_bytes(), b'{', b'}', BytePos(5)), Some(BytePos(3)));
    assert_eq!(find_open_before("a{b}c".as_bytes(), b'{', b'}', BytePos(5)), None);
    assert_eq!(find_open_before("a{b".as_bytes(), b'{', b'}', BytePos(1)), None);
}

#[test]
fn find_closing_paren_gives_the_length_where_nothing_closes() {
    assert_eq!(find_closing_paren("f(a, g(b), c) d".as_bytes(), BytePos(2)), BytePos(12));
    assert_eq!(find_closing_paren("f(a, g(b), c) d".as_bytes(), BytePos(7)), BytePos(8));
    assert_eq!(find_closing_paren("f(a, g(b".as_bytes(), BytePos(2)), BytePos(8));
    assert_eq!(find_closing_paren("f(a)".as_bytes(), BytePos(4)), BytePos(4));
}

#[test]
fn end_of_next_scope_is_empty_without_a_closed_block() {
    assert_eq!(text(end_of_next_scope("fn f() { if a { b } } rest".as_bytes())), "fn f() { if a { b } }");
    assert_eq!(text(end_of_next_scope("fn f() { if a { b }".as_bytes())), "");
    assert_eq!(text(end_of_next_scope("} fn f() { }".as_bytes())), "");
    assert_eq!(text(end_of_next_scope("".as_bytes())), "");
}

#[test]
fn get_line_finds_the_line_feed_before_the_point() {
    let src = "ab\ncd\nef".as_bytes();
    assert_eq!(get_line(src, BytePos(7)), BytePos(5));
    assert_eq!(get_line(src, BytePos(6)), BytePos(5));
    assert_eq!(get_line(src, BytePos(5)), BytePos(2));
    assert_eq!(get_line(src, BytePos(2)), BytePos(0));
    assert_eq!(get_line(src, BytePos(0)), BytePos(0));
    assert_eq!(get_line("\nab".as_bytes(), BytePos(2)), BytePos(0));
}

#[test]
fn mask_comments_keeps_code_and_line_feeds() {
    let code = "a /* b\nc */ d // e\nf";
    let chunks = vec![range(0, 2), range(11, 13), range(18, 20)];
    let src = IndexedSource::new(code.as_bytes().to_vec(), chunks);
    assert_eq!(text(&mask_comments(src.as_src())), "a     \n     d     \nf");
    assert_eq!(text(&mask_comments(src.as_src().from(BytePos(4)))), "  \n     d     \nf");
    assert_eq!(text(&mask_comments(src.as_src().to(BytePos(12)))), "a     \n     ");
    assert_eq!(text(&mask_comments(src.as_src().from_to(BytePos(12), BytePos(12)))), "");
    assert_eq!(text(&mask_comments(plain("a // b").as_src())), "a // b");
    let none = IndexedSource::new("ab\ncd".as_bytes().to_vec(), Vec::new());
    assert_eq!(text(&mask_comments(none.as_src())), "  \n  ");
}

#[test]
fn mask_comments_takes_chunks_in_any_order_and_out_of_range() {
    let code = "abcdef";
    let chunks = vec![range(4, 9), range(0, 1), range(3, 2)];
    let src = IndexedSource::new(code.as_bytes().to_vec(), chunks);
    assert_eq!(text(&mask_comments(src.as_src())), "a   ef");
}

#[test]
fn mask_sub_scopes_blanks_nested_blocks() {
    let src = "fn a() {\n  let x = { 1 };\n}\nfn b() { c }";
    let masked = mask_sub_scopes(src.as_bytes());
    assert_eq!(text(&masked), "fn a() {\n                \n}\nfn b() {   }");
    assert_eq!(masked.len(), src.len());
    assert_eq!(text(&mask_sub_scopes("a { b { c".as_bytes())), "a {      ");
    assert_eq!(text(&mask_sub_scopes("a } b { c } d".as_bytes())), "a } b { c } d");
    assert_eq!(text(&mask_sub_scopes("{}{}".as_bytes())), "{}{}");
    assert_eq!(text(&mask_sub_scopes("".as_bytes())), "");
}

#[test]
fn split_into_context_and_completion_splits_at_the_last_separator() {
    let (context, name, kind) = split_into_context_and_completion("foo.bar".as_bytes());
    assert_eq!((text(context), text(name), kind), ("foo", "bar", CompletionType::Field));
    let (context, name, kind) = split_into_context_and_completion("std::vec::Ve".as_bytes());
    assert_eq!((text(context), text(name), kind), ("std::vec", "Ve", CompletionType::Path));
    let (context, name, kind) = split_into_context_and_completion("foo(bar".as_bytes());
    assert_eq!((text(context), text(name), kind), ("foo(", "bar", CompletionType::Path));
    let (context, name, kind) = split_into_context_and_completion("bar".as_bytes());
    assert_eq!((text(context), text(name), kind), ("", "bar", CompletionType::Path));
    let (context, name, kind) = split_into_context_and_completion("foo.".as_bytes());
    assert_eq!((text(context), text(name), kind), ("foo", "", CompletionType::Field));
    let (context, name, kind) = split_into_context_and_completion(":".as_bytes());
    assert_eq!((text(context), text(name), kind), (":", "", CompletionType::Path));
    let (context, name, kind) = split_into_context_and_completion("".as_bytes());
    assert_eq!((text(context), text(name), kind), ("", "", CompletionType::Path));
}

#[test]
fn get_start_of_search_expr_follows_a_chain_over_lines() {
    let src = "let a = foo\n    .bar()\n    .baz";
    assert_eq!(get_start_of_search_expr(src.as_bytes(), BytePos(src.len())), BytePos(8));
    let src = "x = \"a b\".len";
    assert_eq!(get_start_of_search_expr(src.as_bytes(), BytePos(src.len())), BytePos(4));
    let src = "x = a(b(c), d).e";
    assert_eq!(get_start_of_search_expr(src.as_bytes(), BytePos(src.len())), BytePos(4));
    let src = "a?.b";
    assert_eq!(get_start_of_search_expr(src.as_bytes(), BytePos(4)), BytePos(0));
    let src = "f(a::b";
    assert_eq!(get_start_of_search_expr(src.as_bytes(), BytePos(6)), BytePos(2));
    let src = "a:: b";
    assert_eq!(get_start_of_search_expr(src.as_bytes(), BytePos(5)), BytePos(0));
    let src = "a :: b";
    assert_eq!(get_start_of_search_expr(src.as_bytes(), BytePos(6)), BytePos(2));
    let src = "a : b";
    assert_eq!(get_start_of_search_expr(src.as_bytes(), BytePos(5)), BytePos(4));
    assert_eq!(get_start_of_search_expr("abc".as_bytes(), BytePos(0)), BytePos(0));
    assert_eq!(get_start_of_search_expr("a+b".as_bytes(), BytePos(3)), BytePos(2));
}

#[test]
fn get_start_of_pattern_takes_an_unclosed_comment_end_as_text() {
    assert_eq!(get_start_of_pattern("a, b */ c".as_bytes(), BytePos(9)), BytePos(7));
    assert_eq!(get_start_of_pattern("f(a, b".as_bytes(), BytePos(6)), BytePos(4));
    assert_eq!(get_start_of_pattern("f(a".as_bytes(), BytePos(3)), BytePos(2));
    assert_eq!(get_start_of_pattern("a b".as_bytes(), BytePos(3)), BytePos(0));
    assert_eq!(get_start_of_pattern("/* x */ a".as_bytes(), BytePos(7)), BytePos(0));
}

#[test]
fn scope_start_looks_through_the_braces_of_an_import() {
    let code = "mod m { use a::{b, c}; }";
    let src = plain(code);
    let point = BytePos(code.find("c}").unwrap());
    assert_eq!(scope_start(src.as_src(), point, &env()), BytePos(7));
    let code = "use a::{b::{c, d}};";
    let src = plain(code);
    let point = BytePos(code.find("d}").unwrap());
    assert_eq!(scope_start(src.as_src(), point, &env()), BytePos(0));
    assert_eq!(scope_boundaries(src.as_src(), point), (BytePos(0), BytePos(0)));
}

#[test]
fn scope_start_takes_a_closure_for_a_scope() {
    let code = "fn f() { call(|a, b| a + b) }";
    let src = plain(code);
    let point = BytePos(code.find("a + b").unwrap());
    assert_eq!(scope_boundaries(src.as_src(), point), (BytePos(8), BytePos(14)));
    assert_eq!(text(&closure_scope_source(src.as_src(), point, BytePos(14))), "|a, b| a + b");
    assert_eq!(scope_start(src.as_src(), point, &env()), BytePos(14));
    let no_closures = Env { closures: false, files: Vec::new() };
    assert_eq!(scope_start(src.as_src(), point, &no_closures), BytePos(8));
    assert_eq!(
        find_closure_scope_start(src.as_src(), point, BytePos(14), &env()),
        Some(BytePos(14))
    );
    assert_eq!(find_closure_scope_start(src.as_src(), point, BytePos(14), &no_closures), None);
    let code = "fn f() { call(a, b) }";
    let src = plain(code);
    assert_eq!(scope_start(src.as_src(), BytePos(17), &env()), BytePos(8));
}

#[test]
fn scope_start_passes_over_braces_in_comments() {
    let code = "fn f() { /* { */ a }";
    let comment = code.find("/*").unwrap();
    let chunks = vec![range(0, comment), range(comment + 7, code.len())];
    let src = IndexedSource::new(code.as_bytes().to_vec(), chunks);
    let point = BytePos(code.find(" a ").unwrap() + 1);
    assert_eq!(scope_start(src.as_src(), point, &env()), BytePos(8));
    assert_eq!(scope_start(plain(code).as_src(), point, &env()), BytePos(13));
    assert_eq!(scope_start(plain("a b").as_src(), BytePos(2), &env()), BytePos(0));
}

#[test]
fn find_stmt_start_finds_the_statement_around_the_point() {
    let code = "fn f() { let a = 1; let b = a; }";
    let src = plain(code);
    let point = BytePos(code.find("b =").unwrap());
    assert_eq!(find_stmt_start(src.as_src(), point, &env(), &env()), Some(BytePos(20)));
    assert_eq!(find_stmt_start(src.as_src(), BytePos(20), &env(), &env()), None);
    assert_eq!(find_stmt_start(src.as_src(), BytePos(19), &env(), &env()), None);
    let stmts = [range(1, 11), range(12, 22)];
    assert_eq!(stmt_start_in(&stmts, BytePos(8), BytePos(24)), Some(BytePos(20)));
    assert_eq!(expect_stmt_start(&stmts, BytePos(8), BytePos(24)), BytePos(20));
    assert_eq!(stmt_start_in(&stmts, BytePos(8), BytePos(20)), None);
    assert_eq!(stmt_start_in(&stmts, BytePos(8), BytePos(8)), None);
    assert_eq!(stmt_start_in(&[], BytePos(0), BytePos(3)), None);
}

#[test]
fn find_let_start_widens_the_search() {
    let code = "fn f() { let Foo { a, b } = foo; }";
    let src = plain(code);
    let point = BytePos(code.find("b }").unwrap());
    assert_eq!(find_let_start(src.as_src(), point, &env(), &env()), Some(BytePos(9)));
    let code = "fn f() { let a = 1; }";
    let src = plain(code);
    assert_eq!(find_let_start(src.as_src(), BytePos(13), &env(), &env()), Some(BytePos(9)));
    let code = "fn f() { a = 1; }";
    let src = plain(code);
    assert_eq!(find_let_start(src.as_src(), BytePos(11), &env(), &env()), None);
    let stmts = [range(1, 11), range(12, 22)];
    assert_eq!(let_start_in("fn f() { let a = 1; let b = a; }".as_bytes(), &stmts, BytePos(8), BytePos(24)), Some(BytePos(20)));
    assert_eq!(let_start_in("fn f() { let a = 1; set b = a; }".as_bytes(), &stmts, BytePos(8), BytePos(24)), None);
    assert_eq!(let_start_in("fn f() { let a = 1; let b = a; }".as_bytes(), &stmts, BytePos(8), BytePos(40)), None);
    assert_eq!(let_start_in("short".as_bytes(), &stmts, BytePos(8), BytePos(24)), None);
}

#[test]
fn module_path_passes_over_declarations_without_a_body() {
    let code = "mod a; mod b { mod c; x }";
    let src = plain(code);
    let point = BytePos(code.find("x").unwrap());
    let path = get_local_module_path(src.as_src(), point, &env(), &env());
    assert_eq!(path, vec!["b".as_bytes().to_vec()]);
    let path = get_local_module_path(src.as_src(), BytePos(2), &env(), &env());
    assert!(path.is_empty());
    let path = get_local_module_path(src.as_src(), BytePos(9), &env(), &env());
    assert!(path.is_empty());
    let path = get_local_module_path(src.as_src(), BytePos(code.len()), &env(), &env());
    assert!(path.is_empty());
    assert_eq!(enclosing_module_body(code.as_bytes(), range(7, 25), point), Some(BytePos(14)));
    assert_eq!(enclosing_module_body(code.as_bytes(), range(7, 25), BytePos(13)), None);
    assert_eq!(enclosing_module_body(code.as_bytes(), range(0, 6), BytePos(2)), None);
    assert_eq!(enclosing_module_body(code.as_bytes(), range(7, 99), point), None);
    assert_eq!(
        generate_skeleton_for_parsing("pub mod b { mod c; }".as_bytes()),
        Some("pub mod b {}".as_bytes().to_vec())
    );
    assert_eq!(generate_skeleton_for_parsing("mod a;".as_bytes()), None);
}

#[test]
fn path_attribute_names_the_file_of_a_module() {
    let code = "#[path = \"other/x.rs\"] mod x; #[path = \"y.rs\"] mod y;";
    let src = plain(code);
    let with = Env { closures: false, files: vec!["src/y.rs", "src/other/x.rs"] };
    let at_x = BytePos(code.find("mod x").unwrap());
    let at_y = BytePos(code.find("mod y").unwrap());
    assert_eq!(
        get_module_file_from_path(src.as_src(), at_x, "src".as_bytes(), &with, &with),
        Some("src/other/x.rs".as_bytes().to_vec())
    );
    assert_eq!(
        get_module_file_from_path(src.as_src(), at_y, "src".as_bytes(), &with, &with),
        Some("src/y.rs".as_bytes().to_vec())
    );
    assert_eq!(get_module_file_from_path(src.as_src(), at_y, "lib".as_bytes(), &with, &with), None);
    assert_eq!(
        get_module_file_from_path(src.as_src(), BytePos(0), "src".as_bytes(), &with, &with),
        None
    );
    let stmts = with.iter_stmts(src.as_src());
    assert_eq!(path_attributes_at(code.as_bytes(), &stmts, at_x), vec![range(10, 20)]);
    assert_eq!(path_attributes_at(code.as_bytes(), &stmts, at_y), vec![range(40, 44)]);
    let code = "#[path = \"x.rs] mod x;";
    let stmts = with.iter_stmts(plain(code).as_src());
    assert!(path_attributes_at(code.as_bytes(), &stmts, BytePos(17)).is_empty());
}

#[test]
fn find_impl_start_goes_down_to_the_impl() {
    let code = "mod m { impl Foo { fn f() { x } } }";
    let src = plain(code);
    let point = BytePos(code.find("x").unwrap());
    assert_eq!(find_impl_start(src.as_src(), point, BytePos(0), &env()), Ok(Some(BytePos(8))));
    let code = "pub trait T { fn f() { x } }";
    let src = plain(code);
    let point = BytePos(code.find("x").unwrap());
    assert_eq!(find_impl_start(src.as_src(), point, BytePos(0), &env()), Ok(Some(BytePos(0))));
    let code = "fn f() { x }";
    let src = plain(code);
    assert_eq!(find_impl_start(src.as_src(), BytePos(9), BytePos(0), &env()), Ok(None));
    let code = "let a = 1; x";
    let src = plain(code);
    assert_eq!(
        find_impl_start(src.as_src(), BytePos(5), BytePos(0), &env()),
        Err(ScopeError::MissingBrace)
    );
    assert_eq!(
        find_impl_step("fn f() { x }".as_bytes(), &[range(0, 12)], BytePos(9), BytePos(0)),
        ImplStep::Descend(BytePos(8))
    );
    assert_eq!(
        find_impl_step("fn f() { x }".as_bytes(), &[range(0, 12)], BytePos(4), BytePos(0)),
        ImplStep::NoBrace
    );
    assert_eq!(
        find_impl_step("fn f() { x }".as_bytes(), &[range(0, 12)], BytePos(12), BytePos(0)),
        ImplStep::NotFound
    );
    assert_eq!(
        find_impl_step("trait A {}".as_bytes(), &[range(0, 10)], BytePos(9), BytePos(0)),
        ImplStep::Found(BytePos(0))
    );
}

#[test]
fn pick_scope_start_takes_the_parenthesis_of_a_closure_only() {
    assert_eq!(pick_scope_start(BytePos(12), BytePos(38), false), BytePos(12));
    assert_eq!(pick_scope_start(BytePos(12), BytePos(38), true), BytePos(38));
    assert_eq!(pick_scope_start(BytePos(40), BytePos(38), true), BytePos(40));
    assert_eq!(pick_scope_start(BytePos(40), BytePos(38), false), BytePos(40));
    assert_eq!(pick_scope_start(BytePos(0), BytePos(0), true), BytePos(0));
}

#[test]
fn scope_start_asks_the_parser_about_the_parentheses() {
    let code = "\nfn myfn() {\n    let a = 3;\n    print(a);\n}\n";
    let src = plain(code);
    assert_eq!(scope_boundaries(src.as_src(), BytePos(38)), (BytePos(12), BytePos(38)));
    let no_closures = Env { closures: false, files: Vec::new() };
    assert_eq!(scope_start(src.as_src(), BytePos(38), &no_closures), BytePos(12));
    assert_eq!(text(&closure_scope_source(src.as_src(), BytePos(38), BytePos(38))), "a");
}

#[test]
fn path_attribute_places_copies_the_paths() {
    let code = "#[path = \"other/x.rs\"] mod x;";
    assert_eq!(
        path_attribute_places(code.as_bytes(), &[range(10, 20), range(2, 6)]),
        vec![vec!["other/x.rs".as_bytes().to_vec()], vec!["path".as_bytes().to_vec()]]
    );
    assert!(path_attribute_places(code.as_bytes(), &[]).is_empty());
}
