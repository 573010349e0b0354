use allay::compiler::gen_result_str;
use allay::data::{AllayData, AllayDataError};
use allay::error::{CompileError, InterpretError};
use allay::interpreter::{interpret, Token};
use allay::parser::parse_template;
use allay::scope::PageScope;
use allay::semantics::SubKind;

/// Sources of the subpages, by kind and name.
struct Files {
    includes: Vec<(&'static str, &'static str)>,
    shortcodes: Vec<(&'static str, &'static str)>,
}

impl Files {
    fn none() -> Files {
        Files { includes: vec![], shortcodes: vec![] }
    }

    fn find(&self, kind: SubKind, name: &str) -> &'static str {
        let list = match kind {
            SubKind::Include => &self.includes,
            SubKind::ShortCode => &self.shortcodes,
        };
        list.iter().find(|(n, _)| *n == name).map(|(_, s)| *s).expect("no such file")
    }
}

/// Compiles a markdown page held in memory, with its subpages.
fn compile(source: &str, scope: PageScope, files: &Files) -> Result<String, CompileError> {
    let file = parse_template(source)?;
    compile_template(&file.0, scope, files)
}

fn compile_template(
    t: &allay::ast::Template,
    mut scope: PageScope,
    files: &Files,
) -> Result<String, CompileError> {
    let (tokens, res) = interpret(t, &mut scope, &vec![]);
    res.map_err(CompileError::InterpretError)?;
    let mut parts = Vec::new();
    for token in tokens {
        match token {
            Token::Text(s) => parts.push(s),
            Token::Stash(_) => {}
            Token::Subpage(sub) => {
                let mut sc = sub.scope;
                if let Some((inner, inner_scope)) = sub.inner {
                    let html = compile_template(inner, inner_scope, files)?;
                    sc.add_key("inner".to_string(), AllayData::from(html));
                }
                parts.push(compile(files.find(sub.kind, &sub.name), sc, files)?);
            }
        }
    }
    Ok(gen_result_str(&parts, true))
}

fn get_compile_res(content: &str) -> String {
    compile(content, PageScope::new(), &Files::none()).unwrap()
}

fn to_tokens(s: String) -> Vec<String> {
    s.split_whitespace().map(|s| s.to_string()).collect()
}

#[test]
fn test_simple() {
    assert_eq!(get_compile_res("Hello, World!"), "<p>Hello, World!</p>\n");
    let content = "{- set $var = 10 -} {: $var :}";
    assert_eq!(to_tokens(get_compile_res(content)), vec!["<p>10</p>"]);
}

#[test]
fn test_algorithm() {
    let content = "{- set $sum = 5+--(-6)*10 -} {: $sum :}";
    assert_eq!(to_tokens(get_compile_res(content)), vec!["<p>-55</p>"]);
    let content = "{- set $a = 10 -}
{- set $b = 20 -}
{: ($a + $b) % 7 :}
{- if $a == $b -}Equal{- else -}NotEq{- end -}";
    assert_eq!(to_tokens(get_compile_res(content)), vec!["<p>2", "NotEq</p>"]);
}

#[test]
fn test_shortcode() {
    let files = Files { includes: vec![], shortcodes: vec![("test", "Shortcode")] };
    let res = compile("{< test />}", PageScope::new(), &files).unwrap();
    assert_eq!(to_tokens(res), vec!["<p>Shortcode</p>"]);
}

#[test]
fn test_shortcode_with_params_and_inner() {
    let files = Files {
        includes: vec![],
        shortcodes: vec![("test", "{: param.0 :} {: .inner :} {: param.1 :}")],
    };
    let res = compile(
        "{< test \"hello\" 114*1000+514 >} something {</ test >}",
        PageScope::new(),
        &files,
    )
    .unwrap();
    assert_eq!(to_tokens(res), vec!["<p>hello", "<p>something</p>", "114514</p>"]);
}

#[test]
fn test_include() {
    let files = Files { includes: vec![("header", "<header>Header</header>")], shortcodes: vec![] };
    let res = compile("{- include \"header\" -} Body", PageScope::new(), &files).unwrap();
    let res = to_tokens(res);
    assert!(res.contains(&"Body".to_string()) || res.iter().any(|s| s.contains("Body")));
    assert!(res.iter().any(|s| s.contains("<header>Header</header>")));
}

#[test]
fn test_recursive_include() {
    let files = Files {
        includes: vec![
            ("part1", "Part1. {- include \"part2\" -}"),
            ("part2", "Part2. {- include \"part3\" -}"),
            ("part3", "Part3."),
        ],
        shortcodes: vec![],
    };
    let res = compile("{- include \"part1\" -}", PageScope::new(), &files).unwrap();
    assert_eq!(to_tokens(res), vec!["<p>Part1.", "<p>Part2.", "<p>Part3.</p></p></p>"]);
}

#[test]
fn page_data_reaches_the_template() {
    let mut scope = PageScope::new();
    scope.add_key("name".to_string(), AllayData::from("Test Page"));
    let res = compile("{: .name :}\n    ", scope, &Files::none()).unwrap();
    assert_eq!(to_tokens(res), vec!["<p>Test", "Page</p>"]);
}

#[test]
fn for_loop_with_index() {
    let mut scope = PageScope::new();
    scope.add_key(
        "items".to_string(),
        AllayData::from(vec![AllayData::from("a"), AllayData::from("b")]),
    );
    let res = get_res_with(scope, "{- for $x, $i : .items -}[{: $i :}{: $x :}]{- end -}");
    assert_eq!(res.split_whitespace().collect::<String>(), "<p>[0a][1b]</p>");
}

fn get_res_with(scope: PageScope, src: &str) -> String {
    compile(src, scope, &Files::none()).unwrap()
}

#[test]
fn with_opens_a_scope() {
    let mut scope = PageScope::new();
    let mut inner = allay::data::AllayObject::new();
    inner.insert("k".to_string(), AllayData::from(5));
    scope.add_key("obj".to_string(), AllayData::from(inner));
    let res = get_res_with(scope, "{- with .obj -}{: .k :}{- end -}");
    assert_eq!(to_tokens(res), vec!["<p>5</p>"]);
}

#[test]
fn logic_and_comparisons() {
    let res = get_compile_res("{: 1 < 2 && 3 >= 3 :} {: !(1 == 1) || 2 != 2 :}");
    assert_eq!(to_tokens(res), vec!["<p>true", "false</p>"]);
}

#[test]
fn strings_compare_but_do_not_add() {
    let res = get_compile_res("{: \"a\" < \"b\" :} {: \"b\" == \"b\" :}");
    assert_eq!(to_tokens(res), vec!["<p>true", "true</p>"]);
    let err = compile("{: \"ab\" + \"cd\" :}", PageScope::new(), &Files::none()).unwrap_err();
    assert!(matches!(err, CompileError::InterpretError(InterpretError::DataError(_))));
}

#[test]
fn undefined_variable_is_an_error() {
    let err = compile("{: $nope :}", PageScope::new(), &Files::none()).unwrap_err();
    assert!(matches!(
        err,
        CompileError::InterpretError(InterpretError::VariableNotFound(ref id)) if id == "nope"
    ));
}

#[test]
fn division_by_zero_is_an_arithmetic_error() {
    let err = compile("{: 1 / 0 :}", PageScope::new(), &Files::none()).unwrap_err();
    assert!(matches!(err, CompileError::InterpretError(InterpretError::ArithmeticError(_))));
}

#[test]
fn adding_int_and_bool_is_a_type_error() {
    let err = compile("{: 1 + #t :}", PageScope::new(), &Files::none()).unwrap_err();
    assert!(matches!(err, CompileError::InterpretError(InterpretError::DataError(_))));
}

#[test]
fn missing_field_writes_nothing() {
    let res = get_compile_res("a{: .missing :}b");
    assert_eq!(to_tokens(res), vec!["<p>a", "b</p>"]);
}

#[test]
fn index_out_of_bounds_is_an_error() {
    let mut scope = PageScope::new();
    scope.add_key("l".to_string(), AllayData::from(vec![AllayData::from(1)]));
    let err = compile("{: .l.3 :}", scope, &Files::none()).unwrap_err();
    assert!(matches!(err, CompileError::InterpretError(InterpretError::IndexOutOfBounds(_))));
}

#[test]
fn html_pages_are_not_rendered_as_markdown() {
    let parts = vec!["<b>x</b>".to_string(), "y".to_string()];
    assert_eq!(gen_result_str(&parts, false), " <b>x</b> y");
    assert_eq!(gen_result_str(&parts, true), "<p><b>x</b> y</p>\n");
}

fn data_of_yaml(v: &serde_yaml::Value) -> AllayData {
    match v {
        serde_yaml::Value::Null => AllayData::Null,
        serde_yaml::Value::Bool(b) => AllayData::from(*b),
        serde_yaml::Value::Number(n) => AllayData::from(n.as_i64().unwrap()),
        serde_yaml::Value::String(s) => AllayData::from(s.clone()),
        serde_yaml::Value::Sequence(l) => AllayData::from(l.iter().map(data_of_yaml).collect::<Vec<_>>()),
        serde_yaml::Value::Mapping(m) => {
            let mut o = allay::data::AllayObject::new();
            for (k, v) in m {
                o.insert(k.as_str().unwrap().to_string(), data_of_yaml(v));
            }
            AllayData::from(o)
        }
        serde_yaml::Value::Tagged(_) => AllayData::Null,
    }
}

#[test]
fn test_markdown_meta() {
    let source = "---\nname: \"Test Page\"\n---\n{: .name :}\n    ";
    let (front, body) = allay::extract::split_front_matter(source);
    let yaml = match front {
        Some(allay::extract::FrontMatter::Yaml(y)) => y,
        other => panic!("unexpected {:?}", other),
    };
    let meta = match data_of_yaml(&serde_yaml::from_str(&yaml).unwrap()) {
        AllayData::Object(o) => o,
        _ => panic!("front matter is not an object"),
    };
    let meta = allay::extract::meta_preprocess("site/contents/source.md", "site/contents", "index.html", meta);
    let mut scope = PageScope::new();
    scope.merge_data(&meta);
    let res = compile(&body, scope, &Files::none()).unwrap();
    assert_eq!(to_tokens(res), vec!["<p>Test", "Page</p>"]);
}

#[test]
fn fresh_page_param_is_null() {
    let scope = PageScope::new();
    assert!(scope.get_param().get_data().is_null());
    let res = get_compile_res("a{: param :}b");
    assert_eq!(to_tokens(res), vec!["<p>a", "b</p>"]);
}

#[test]
fn indexing_a_fresh_page_param_is_a_type_error() {
    let err = compile("{: param.0 :}", PageScope::new(), &Files::none()).unwrap_err();
    assert!(matches!(
        err,
        CompileError::InterpretError(InterpretError::DataError(AllayDataError::TypeConversion(ref m)))
            if m == "not a list"
    ));
}

#[test]
fn arithmetic_errors_carry_their_message() {
    let err = compile("{: 1 / 0 :}", PageScope::new(), &Files::none()).unwrap_err();
    assert!(matches!(
        err,
        CompileError::InterpretError(InterpretError::ArithmeticError(ref m))
            if m == "integer overflow or division by zero"
    ));
    let err = compile("{: 1 + #t :}", PageScope::new(), &Files::none()).unwrap_err();
    assert!(matches!(
        err,
        CompileError::InterpretError(InterpretError::DataError(AllayDataError::TypeConversion(ref m)))
            if m == "not an integer"
    ));
}
