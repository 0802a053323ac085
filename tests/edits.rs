use nix_splice::{
    flake_home_literal, is_parseable, replace_attr, replace_flake_home, replace_inputs,
    value_parser_for_pathbuf, ArgError, SyntaxTree, ValueKind, MAX_NESTING_TOKENS,
};

#[test]
fn flake_inputs() {
    let expression_path = "/Users/kemengjian/workspace/git/nixos-config/lib/select_device_build_inputs.nix";
    let flake_path = "/Users/kemengjian/workspace/git/nixos-config/flake.nix";
    assert!(value_parser_for_pathbuf(expression_path, false).is_err());
    assert!(value_parser_for_pathbuf(flake_path, false).is_err());
    let flake = "{\n  description = \"cfg\";\n  inputs = {\n    nixpkgs.url = \"github:NixOS/nixpkgs\";\n  };\n  outputs = _: { };\n}\n";
    let out = replace_inputs(flake, "{ home-manager = { url = \"x\"; }; }").unwrap();
    assert_eq!(
        out,
        "{\n  description = \"cfg\";\n  inputs = { home-manager = { url = \"x\"; }; };\n  outputs = _: { };\n}\n"
    );
}

#[test]
fn flake_home() {
    let src = "{\n  user = \"me\";\n  flakeHome = \"/tmp/old\";\n}\n";
    let out = replace_flake_home(src, "flakeHome", "/Users/kemengjian/workspace/git/nixos-config/").unwrap();
    assert_eq!(
        out,
        "{\n  user = \"me\";\n  flakeHome = \"/Users/kemengjian/workspace/git/nixos-config/\";\n}\n"
    );
}

#[test]
fn round_trip_keeps_text() {
    let sources = [
        "",
        "{ a = 1; }",
        "# comment\n{\n  a = /* inline */ 1;\n  b = \"s ${x} t\";\n}\n",
        "let x = 1; in { inherit x; y = [ 1 2 3 ]; }",
        "{ broken = ; ]] \"unterminated",
    ];
    for s in sources.iter() {
        assert_eq!(SyntaxTree::parse(s).unwrap().to_text(), *s);
    }
}

#[test]
fn scenario_replaces_flake_home_string() {
    let out = replace_flake_home("{ flakeHome = \"/old/path\"; }", "flakeHome", "/new/path").unwrap();
    assert_eq!(out, "{ flakeHome = \"/new/path\"; }");
}

#[test]
fn scenario_replaces_inputs_set() {
    let out = replace_inputs("{ inputs = { a = 1; }; other = true; }", "{ b = 2; }").unwrap();
    assert_eq!(out, "{ inputs = { b = 2; }; other = true; }");
}

#[test]
fn scenario_without_inputs_is_unchanged() {
    let src = "{\n  description = \"x\"; # no inputs here\n  outputs = { self }: { };\n}\n";
    assert_eq!(replace_inputs(src, "{ b = 2; }").unwrap(), src);
}

#[test]
fn scenario_value_of_other_kind_is_unchanged() {
    let src = "{ flakeHome = 42; }";
    assert_eq!(replace_flake_home(src, "flakeHome", "/new/path").unwrap(), src);
}

#[test]
fn inputs_that_are_not_a_set_are_unchanged() {
    let src = "{ inputs = import ./inputs.nix; }";
    assert_eq!(replace_inputs(src, "{ b = 2; }").unwrap(), src);
}

#[test]
fn splice_keeps_comments_and_whitespace_around() {
    let src = "# head\n{\n  inputs = { a = 1; }; # keep me\n  x   =   2;\n}\n";
    let out = replace_inputs(src, "{ b = 2; }").unwrap();
    assert_eq!(out, "# head\n{\n  inputs = { b = 2; }; # keep me\n  x   =   2;\n}\n");
}

#[test]
fn evaluator_trailing_newline_is_inserted() {
    let out = replace_inputs("{ inputs = { a = 1; }; other = true; }", "{ b = 2; }\n").unwrap();
    assert_eq!(out, "{ inputs = { b = 2; }\n; other = true; }");
}

#[test]
fn first_duplicate_in_document_order_is_replaced() {
    let src = "{ inputs = { a = 1; }; inputs = { c = 3; }; }";
    let once = replace_inputs(src, "{ b = 2; }").unwrap();
    assert_eq!(once, "{ inputs = { b = 2; }; inputs = { c = 3; }; }");
    let twice = replace_inputs(&once, "{ d = 4; }").unwrap();
    assert_eq!(twice, "{ inputs = { d = 4; }; inputs = { c = 3; }; }");
}

#[test]
fn nested_path_text_locates_enclosing_entry() {
    let src = "{ outer = { inner = \"v\"; }; inner = \"w\"; }";
    let out = replace_attr(src, "inner", ValueKind::AttrSet, "{ z = 0; }").unwrap();
    assert_eq!(out, "{ outer = { z = 0; }; inner = \"w\"; }");
}

#[test]
fn dotted_path_matches_whole_text() {
    let src = "{ a.b = \"x\"; b = \"y\"; }";
    assert_eq!(replace_flake_home(src, "a.b", "/p").unwrap(), "{ a.b = \"/p\"; b = \"y\"; }");
    assert_eq!(replace_flake_home(src, "b", "/p").unwrap(), "{ a.b = \"x\"; b = \"/p\"; }");
}

#[test]
fn attributes_of_nested_sets_are_not_entries() {
    let src = "{ outer = { flakeHome = \"/x\"; }; }";
    assert_eq!(replace_flake_home(src, "flakeHome", "/p").unwrap(), src);
}

#[test]
fn literal_is_debug_quoted() {
    assert_eq!(flake_home_literal("/new/path"), "\"/new/path\"");
    assert_eq!(flake_home_literal("/a\"b\\c"), "\"/a\\\"b\\\\c\"");
    let out = replace_flake_home("{ flakeHome = \"\"; }", "flakeHome", "/a\"b").unwrap();
    assert_eq!(out, "{ flakeHome = \"/a\\\"b\"; }");
}

#[test]
fn locate_and_child_positions() {
    let tree = SyntaxTree::parse("{ x = 1; inputs = { a = 1; }; }").unwrap();
    let at = tree.find_attr("inputs").unwrap();
    let v = tree.find_child(at, ValueKind::AttrSet).unwrap();
    assert!(at < v && v < tree.subtree_end(at));
    assert_eq!(tree.range_text(v, tree.subtree_end(v)), "{ a = 1; }");
    assert_eq!(tree.range_text(at, tree.subtree_end(at)), "inputs = { a = 1; };");
    assert!(tree.find_child(at, ValueKind::Str).is_none());
    assert!(tree.find_attr("missing").is_none());
}

#[test]
fn splice_in_place() {
    let mut tree = SyntaxTree::parse("{ inputs = { a = 1; }; }").unwrap();
    let repl = SyntaxTree::parse("{ q = 9; }").unwrap();
    let at = tree.find_attr("inputs").unwrap();
    let v = tree.find_child(at, ValueKind::AttrSet).unwrap();
    tree.splice(v, &repl);
    assert_eq!(tree.to_text(), "{ inputs = { q = 9; }; }");
}

#[test]
fn path_argument_checks() {
    assert_eq!(value_parser_for_pathbuf("./flake.nix", true).ok(), Some("./flake.nix".to_string()));
    match value_parser_for_pathbuf("./missing.nix", false) {
        Err(e) => {
            assert!(matches!(&e, ArgError::NotAFile(p) if p == "./missing.nix"));
            assert_eq!(
                e.message(),
                "The specified [./missing.nix] path does not exist or is not a file"
            );
        }
        Ok(_) => panic!("a missing file was accepted"),
    }
}

#[test]
fn literal_keeps_single_quote() {
    assert_eq!(flake_home_literal("/it's"), "\"/it's\"");
}

#[test]
fn nesting_within_bound_parses() {
    let lists = "[".repeat(MAX_NESTING_TOKENS);
    assert!(is_parseable(&lists));
    assert_eq!(SyntaxTree::parse(&lists).unwrap().to_text(), lists);
    let negations = format!("{}1", "-".repeat(MAX_NESTING_TOKENS));
    assert_eq!(SyntaxTree::parse(&negations).unwrap().to_text(), negations);
    let concats = format!("[]{}", " ++ []".repeat(MAX_NESTING_TOKENS / 3 - 1));
    assert!(is_parseable(&concats));
    assert_eq!(SyntaxTree::parse(&concats).unwrap().to_text(), concats);
}

#[test]
fn nesting_beyond_bound_is_refused() {
    let deep = "[".repeat(MAX_NESTING_TOKENS + 1);
    assert!(!is_parseable(&deep));
    assert!(SyntaxTree::parse(&deep).is_none());
    let src = format!("{{ inputs = {{ a = 1; }}; other = {}; }}", deep);
    assert!(replace_inputs(&src, "{ b = 2; }").is_none());
    assert!(replace_inputs("{ inputs = { a = 1; }; }", &deep).is_none());
    let defaults = format!("{}1", "x.a or ".repeat(MAX_NESTING_TOKENS + 1));
    assert!(!is_parseable(&defaults));
    assert!(replace_flake_home(&defaults, "flakeHome", "/p").is_none());
}

#[test]
fn default_chain_within_bound_parses() {
    let defaults = format!("{}1", "x.a or ".repeat(MAX_NESTING_TOKENS));
    assert!(is_parseable(&defaults));
    assert_eq!(SyntaxTree::parse(&defaults).unwrap().to_text(), defaults);
}

#[test]
fn bound_inside_nested_expressions_parses() {
    let text = format!("{}{}{}", "(".repeat(500), "[".repeat(MAX_NESTING_TOKENS), ")".repeat(500));
    assert!(is_parseable(&text));
    assert_eq!(SyntaxTree::parse(&text).unwrap().to_text(), text);
}

#[test]
fn paths_strings_and_names_do_not_count() {
    let mut src = String::from("{\n");
    for i in 0..3000 {
        src.push_str(&format!("  my-name-{} = \"github:a/b-c//d\"; # a/b-c <x>\n  p{} = ./a/b-c;\n", i, i));
    }
    src.push_str("  flakeHome = \"/old\";\n}\n");
    assert!(is_parseable(&src));
    let out = replace_flake_home(&src, "flakeHome", "/new").unwrap();
    assert!(out.ends_with("  flakeHome = \"/new\";\n}\n"));
}

#[test]
fn ordinary_text_is_parseable() {
    assert!(is_parseable(""));
    assert!(is_parseable("{ url = \"github:nix-community/home-manager\"; }"));
}
