use racer::collab::{AstParser, StatementIterator};
use racer::pos::{BytePos, ByteRange};
use racer::scopes::{
    end_of_next_scope, expand_search_expr, get_local_module_path, get_start_of_pattern,
    mask_comments, scope_start,
};
use racer::source::{IndexedSource, Src};
use racer::symbols::{EnumVariant, ExternCrate, PathAlias};

/// The offset of `column` in line `line` of `src`; lines count from one.
fn coords_to_point(src: &str, line: usize, column: usize) -> BytePos {
    let mut offset = 0;
    for (i, l) in src.split('\n').enumerate() {
        if i + 1 == line {
            assert!(column <= l.len());
            return BytePos(offset + column);
        }
        offset += l.len() + 1;
    }
    panic!("no such line");
}

/// A source whose code chunks are all of the text but its `//` comments.
fn new_source(src: &str) -> IndexedSource {
    let bytes = src.as_bytes();
    let mut chunks = Vec::new();
    let mut start = 0;
    let mut i = 0;
    while i < bytes.len() {
        if bytes[i] == b'/' && i + 1 < bytes.len() && bytes[i + 1] == b'/' {
            chunks.push(ByteRange::new(BytePos(start), BytePos(i)));
            while i < bytes.len() && bytes[i] != b'\n' {
                i += 1;
            }
            start = i;
        } else {
            i += 1;
        }
    }
    chunks.push(ByteRange::new(BytePos(start), BytePos(bytes.len())));
    IndexedSource::new(bytes.to_vec(), chunks)
}

/// Splits a view into statements: each runs from its first byte that is no
/// whitespace to the `;` or `}` that ends it outside all braces.
struct Splitter;

impl StatementIterator for Splitter {
    fn iter_stmts(&self, src: Src<'_>) -> Vec<ByteRange> {
        let bytes = src.as_bytes();
        let mut out = Vec::new();
        let mut i = 0;
        loop {
            while i < bytes.len() && (bytes[i] as char).is_whitespace() {
                i += 1;
            }
            if i >= bytes.len() {
                return out;
            }
            let start = i;
            let mut depth = 0usize;
            loop {
                if i >= bytes.len() {
                    out.push(ByteRange::new(BytePos(start), BytePos(i)));
                    return out;
                }
                let b = bytes[i];
                i += 1;
                if b == b'{' {
                    depth += 1;
                } else if b == b'}' {
                    if depth == 0 {
                        return out;
                    }
                    depth -= 1;
                    if depth == 0 {
                        break;
                    }
                } else if b == b';' && depth == 0 {
                    break;
                }
            }
            out.push(ByteRange::new(BytePos(start), BytePos(i)));
        }
    }
}

/// Reads no more than the name of a module; no text is a closure's parameter list.
struct Parser;

impl AstParser for Parser {
    fn closure_valid_arg_scope(&self, _text: &[u8]) -> bool {
        false
    }

    fn parse_mod(&self, text: &[u8]) -> Option<Vec<u8>> {
        let text = std::str::from_utf8(text).ok()?;
        let rest = text.trim_start_matches("pub ").strip_prefix("mod ")?;
        let name: String = rest.chars().take_while(|c| c.is_alphanumeric() || *c == '_').collect();
        if name.is_empty() {
            None
        } else {
            Some(name.into_bytes())
        }
    }

    fn parse_pat_bind_stmt(&self, _text: &[u8]) -> Vec<ByteRange> {
        Vec::new()
    }

    fn parse_enum(&self, _text: &[u8]) -> Vec<EnumVariant> {
        Vec::new()
    }

    fn parse_generics(&self, _header: &[u8], _filepath: &[u8]) -> Vec<Vec<u8>> {
        Vec::new()
    }

    fn parse_extern_crate(&self, _text: &[u8]) -> ExternCrate {
        ExternCrate { name: None, realname: None }
    }

    fn parse_use(&self, _text: &[u8]) -> Vec<PathAlias> {
        Vec::new()
    }

    fn first_param_is_self(&self, _text: &[u8]) -> bool {
        false
    }
}

fn range(start: usize, end: usize) -> ByteRange {
    ByteRange::new(BytePos(start), BytePos(end))
}

#[test]
fn finds_subnested_module() {
    let src = "
    pub mod foo {
        pub mod bar {
            here
        }
    }";
    let point = coords_to_point(src, 4, 12);
    let src = new_source(src);
    let v = get_local_module_path(src.as_src(), point, &Splitter, &Parser);
    assert_eq!("foo".as_bytes(), &v[0][..]);
    assert_eq!("bar".as_bytes(), &v[1][..]);

    let point = coords_to_point(std::str::from_utf8(&src.code).unwrap(), 3, 8);
    let v = get_local_module_path(src.as_src(), point, &Splitter, &Parser);
    assert_eq!("foo".as_bytes(), &v[0][..]);
}

#[test]
fn get_start_of_pattern_handles_variant() {
    assert_eq!(BytePos(4), get_start_of_pattern("foo, Some(a) =>".as_bytes(), BytePos(13)));
}

#[test]
fn get_start_of_pattern_handles_variant2() {
    assert_eq!(
        BytePos(4),
        get_start_of_pattern("bla, ast::PatTup(ref tuple_elements) => {".as_bytes(), BytePos(36))
    );
}

#[test]
fn get_start_of_pattern_with_block_comments() {
    assert_eq!(
        BytePos(6),
        get_start_of_pattern("break, Some(b) /* if expr is Some */ => {".as_bytes(), BytePos(36))
    );
}

#[test]
fn expand_search_expr_finds_ident() {
    assert_eq!(range(0, 7), expand_search_expr("foo.bar".as_bytes(), BytePos(5)))
}

#[test]
fn expand_search_expr_ignores_bang_at_start() {
    assert_eq!(range(1, 4), expand_search_expr("!foo".as_bytes(), BytePos(1)))
}

#[test]
fn expand_search_expr_handles_chained_calls() {
    assert_eq!(range(0, 20), expand_search_expr("yeah::blah.foo().bar".as_bytes(), BytePos(18)))
}

#[test]
fn expand_search_expr_handles_inline_closures() {
    assert_eq!(
        range(0, 29),
        expand_search_expr("yeah::blah.foo(|x:foo|{}).bar".as_bytes(), BytePos(27))
    )
}

#[test]
fn expand_search_expr_handles_a_function_arg() {
    assert_eq!(
        range(5, 25),
        expand_search_expr("myfn(foo::new().baz().com)".as_bytes(), BytePos(23))
    )
}

#[test]
fn expand_search_expr_handles_macros() {
    assert_eq!(range(0, 9), expand_search_expr("my_macro!()".as_bytes(), BytePos(8)))
}

#[test]
fn expand_search_expr_handles_pos_at_end_of_search_str() {
    assert_eq!(range(0, 7), expand_search_expr("foo.bar".as_bytes(), BytePos(7)))
}

#[test]
fn expand_search_expr_handles_type_definition() {
    assert_eq!(range(4, 7), expand_search_expr("x : foo".as_bytes(), BytePos(7)))
}

#[test]
fn expand_search_expr_handles_ws_before_dot() {
    assert_eq!(range(0, 8), expand_search_expr("foo .bar".as_bytes(), BytePos(7)))
}

#[test]
fn expand_search_expr_handles_ws_after_dot() {
    assert_eq!(range(0, 8), expand_search_expr("foo. bar".as_bytes(), BytePos(7)))
}

#[test]
fn expand_search_expr_handles_ws_dot() {
    assert_eq!(range(0, 13), expand_search_expr("foo. bar .foo".as_bytes(), BytePos(12)))
}

#[test]
fn expand_search_expr_handles_let() {
    assert_eq!(range(8, 11), expand_search_expr("let b = foo".as_bytes(), BytePos(10)))
}

#[test]
fn expand_search_expr_handles_double_dot() {
    assert_eq!(range(2, 5), expand_search_expr("..foo".as_bytes(), BytePos(4)))
}

#[test]
fn test_scope_start() {
    let src = String::from("
fn myfn() {
    let a = 3;
    print(a);
}
");
    let point = coords_to_point(&src, 4, 10);
    let src = new_source(&src);
    let start = scope_start(src.as_src(), point, &Parser);
    assert!(start == BytePos(12));
}

#[test]
fn test_scope_start_handles_sub_scopes() {
    let src = String::from("
fn myfn() {
    let a = 3;
    {
      let b = 4;
    }
    print(a);
}
");
    let point = coords_to_point(&src, 7, 10);
    let src = new_source(&src);
    let start = scope_start(src.as_src(), point, &Parser);
    assert!(start == BytePos(12));
}

#[test]
fn masks_out_comments() {
    let text = String::from("
this is some code
this is a line // with a comment
some more
");
    let src = new_source(&text);
    let r = mask_comments(src.as_src());

    assert!(src.code.len() == r.len());
    // characters at the start are the same
    assert!(src.code[5] == r[5]);
    // characters in the comments are masked
    let commentoffset = coords_to_point(&text, 3, 23).0;
    assert!(r[commentoffset] == b' ');
    assert!(src.code[commentoffset] != r[commentoffset]);
    // characters afterwards are the same
    assert!(src.code[src.code.len() - 3] == r[src.code.len() - 3]);
}

#[test]
fn finds_end_of_struct_scope() {
    let src = "
struct foo {
   a: usize,
   blah: ~str
}
Some other junk";

    let expected = "
struct foo {
   a: usize,
   blah: ~str
}";
    let s = end_of_next_scope(src.as_bytes());
    assert_eq!(expected.as_bytes(), s);
}
