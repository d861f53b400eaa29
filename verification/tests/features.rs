use cancellation::{CancellationToken, CancellationTokenSource};
use texlab::completion::latex::command_symbol::LatexCommandSymbolCompletionProvider;
use texlab::completion::quality::{score_match, OrderByQualityCompletionProvider};
use texlab::component_db::{
    CommandSymbol, Component, ComponentArgument, ComponentCommand, ComponentParameter,
    ReferenceData,
};
use texlab::features::completion::acronym_ref::{complete_acronyms, complete_acronyms_unless};
use texlab::features::completion::argument::{complete_arguments, complete_arguments_unless};
use texlab::features::completion::color::{complete_colors, complete_colors_unless};
use texlab::features::completion::types::{InternalCompletionItem, InternalCompletionItemData};
use texlab::features::completion::{complete, complete_in_context};
use texlab::edit::TextEdit;
use texlab::features::cursor::{CompletionParams, CursorContext, FeatureRequest, RenameParams};
use texlab::features::rename::command::rename_command;
use texlab::syntax::bibtex::BibtexKind;
use texlab::syntax::builder::TreeBuilder;
use texlab::syntax::cst::{CstNode, SyntaxTree};
use texlab::syntax::latex::{CurlyGroupWord, LatexKind};
use texlab::syntax::offset::TextRange;
use texlab::syntax::text::{Position, Range};
use texlab::workspace::{Document, DocumentData, WorkspaceSubset};

/// A small tree description: a node with children, or a token with text.
enum Tree {
    Node(LatexKind, Vec<Tree>),
    Token(LatexKind, &'static str),
}

fn node(kind: LatexKind, children: Vec<Tree>) -> Tree {
    Tree::Node(kind, children)
}

fn token(kind: LatexKind, text: &'static str) -> Tree {
    Tree::Token(kind, text)
}

fn words(kind: LatexKind, text: &'static str) -> Tree {
    let mut children = Vec::new();
    let mut first = true;
    for word in text.split(' ') {
        if !first {
            children.push(token(LatexKind::Whitespace, " "));
        }
        first = false;
        children.push(token(LatexKind::Word, word));
    }
    node(kind, children)
}

fn emit(builder: &mut TreeBuilder, tree: &Tree) {
    match tree {
        Tree::Node(kind, children) => {
            assert!(builder.start_node(kind.to_raw()));
            for child in children {
                emit(builder, child);
            }
            assert!(builder.finish_node());
        }
        Tree::Token(kind, text) => {
            assert!(builder.token(kind.to_raw(), text));
        }
    }
}

fn build(tree: &Tree) -> SyntaxTree {
    let mut builder = TreeBuilder::new();
    emit(&mut builder, tree);
    builder.finish().unwrap()
}

fn latex_document(uri: &str, text: &str, tree: &Tree) -> Document {
    Document::new(uri.to_owned(), text.to_owned(), DocumentData::Latex(build(tree))).unwrap()
}

fn empty_bibtex_document(uri: &str) -> Document {
    let mut builder = TreeBuilder::new();
    assert!(builder.start_node(BibtexKind::Root.to_raw()));
    assert!(builder.finish_node());
    let tree = builder.finish().unwrap();
    Document::new(uri.to_owned(), String::new(), DocumentData::Bibtex(tree)).unwrap()
}

fn amsfonts() -> Component {
    Component {
        file_names: vec!["amsfonts.sty".to_owned()],
        commands: vec![ComponentCommand {
            name: "mathbb".to_owned(),
            image: None,
            parameters: vec![ComponentParameter(vec![
                ComponentArgument { name: "A".to_owned(), image: Some("𝔸".to_owned()) },
                ComponentArgument { name: "B".to_owned(), image: None },
            ])],
        }],
    }
}

fn reference_data() -> ReferenceData {
    ReferenceData::new(
        vec![amsfonts()],
        vec![
            CommandSymbol { command: "varepsilon".to_owned(), component: None, image: None },
            CommandSymbol {
                command: "mathbb".to_owned(),
                component: Some("amsfonts.sty".to_owned()),
                image: None,
            },
            CommandSymbol {
                command: "checkmark".to_owned(),
                component: Some("amssymb.sty".to_owned()),
                image: None,
            },
        ],
        vec!["black".to_owned(), "blue".to_owned(), "red".to_owned()],
    )
}

fn context(documents: Vec<Document>, line: u32, character: u32) -> CursorContext<CompletionParams> {
    let request = FeatureRequest::new(
        CompletionParams { position: Position::new(line, character) },
        WorkspaceSubset::new(documents),
        reference_data(),
    );
    CursorContext::new(request)
}

/// Splits LaTeX source into tokens.
fn lex(text: &str) -> Vec<(LatexKind, &str)> {
    let mut tokens = Vec::new();
    let mut rest = text;
    while let Some(first) = rest.chars().next() {
        let is_word = |c: char| !" \t\r\n\\{}[],=%".contains(c);
        let (kind, len) = match first {
            '\\' => {
                let letters: usize = rest[1..].chars().take_while(|c| c.is_alphabetic()).map(char::len_utf8).sum();
                let len = if letters > 0 {
                    1 + letters
                } else {
                    1 + rest[1..].chars().next().map_or(0, char::len_utf8)
                };
                let kind = match &rest[..len] {
                    "\\newacronym" => LatexKind::AcronymDefinitionName,
                    "\\acrshort" | "\\acrlong" | "\\acrfull" => LatexKind::AcronymReferenceName,
                    "\\color" => LatexKind::ColorReferenceName,
                    "\\include" | "\\input" => LatexKind::IncludeName,
                    _ => LatexKind::GenericCommandName,
                };
                (kind, len)
            }
            '{' => (LatexKind::LCurly, 1),
            '}' => (LatexKind::RCurly, 1),
            '[' => (LatexKind::LBrack, 1),
            ']' => (LatexKind::RBrack, 1),
            ',' => (LatexKind::Comma, 1),
            '=' => (LatexKind::Eq, 1),
            '\n' => (LatexKind::LineBreak, 1),
            '\r' => (LatexKind::LineBreak, if rest.starts_with("\r\n") { 2 } else { 1 }),
            ' ' | '\t' => {
                (LatexKind::Whitespace, rest.chars().take_while(|c| *c == ' ' || *c == '\t').count())
            }
            '%' => (LatexKind::Comment, rest.find('\n').unwrap_or(rest.len())),
            _ => (LatexKind::Word, rest.chars().take_while(|c| is_word(*c)).map(char::len_utf8).sum()),
        };
        tokens.push((kind, &rest[..len]));
        rest = &rest[len..];
    }
    tokens
}

/// A recursive-descent parser that lays the tokens out as a tree.
struct Parser<'a> {
    tokens: Vec<(LatexKind, &'a str)>,
    next: usize,
    builder: TreeBuilder,
}

impl<'a> Parser<'a> {
    fn peek(&self) -> Option<LatexKind> {
        self.tokens.get(self.next).map(|token| token.0)
    }

    fn bump(&mut self) {
        let (kind, text) = self.tokens[self.next];
        assert!(self.builder.token(kind.to_raw(), text));
        self.next += 1;
    }

    fn start(&mut self, kind: LatexKind) {
        assert!(self.builder.start_node(kind.to_raw()));
    }

    fn finish(&mut self) {
        assert!(self.builder.finish_node());
    }

    fn words(&mut self, kind: LatexKind) {
        self.start(kind);
        while matches!(self.peek(), Some(LatexKind::Word | LatexKind::Whitespace)) {
            self.bump();
        }
        self.finish();
    }

    fn item(&mut self) {
        match self.peek().unwrap() {
            LatexKind::LCurly => self.curly_group(),
            LatexKind::LBrack => self.brack_group(),
            LatexKind::Word => self.words(LatexKind::Text),
            kind if kind.is_command_name() => self.command(kind),
            _ => self.bump(),
        }
    }

    fn curly_group(&mut self) {
        self.start(LatexKind::CurlyGroup);
        self.bump();
        while !matches!(self.peek(), None | Some(LatexKind::RCurly)) {
            self.item();
        }
        if self.peek().is_some() {
            self.bump();
        }
        self.finish();
    }

    fn brack_group(&mut self) {
        self.start(LatexKind::BrackGroup);
        self.bump();
        while !matches!(self.peek(), None | Some(LatexKind::RBrack | LatexKind::RCurly)) {
            self.item();
        }
        if self.peek() == Some(LatexKind::RBrack) {
            self.bump();
        }
        self.finish();
    }

    fn curly_group_word(&mut self, kind: LatexKind) {
        self.start(kind);
        self.bump();
        if self.peek() == Some(LatexKind::Word) {
            self.words(LatexKind::Key);
        }
        if self.peek() == Some(LatexKind::RCurly) {
            self.bump();
        }
        self.finish();
    }

    fn command(&mut self, name: LatexKind) {
        let (node, first) = match name {
            LatexKind::AcronymDefinitionName => {
                (LatexKind::AcronymDefinition, Some(LatexKind::CurlyGroupWord))
            }
            LatexKind::AcronymReferenceName => {
                (LatexKind::AcronymReference, Some(LatexKind::CurlyGroupWord))
            }
            LatexKind::ColorReferenceName => {
                (LatexKind::ColorReference, Some(LatexKind::CurlyGroupWord))
            }
            LatexKind::IncludeName => (LatexKind::Include, Some(LatexKind::CurlyGroupWordList)),
            _ => (LatexKind::GenericCommand, None),
        };
        self.start(node);
        self.bump();
        if self.peek() == Some(LatexKind::LBrack) {
            self.brack_group();
        }
        if let Some(first) = first {
            if self.peek() == Some(LatexKind::LCurly) {
                self.curly_group_word(first);
            }
        }
        while matches!(self.peek(), Some(LatexKind::LCurly | LatexKind::LBrack)) {
            self.item();
        }
        self.finish();
    }
}

fn parse_latex(text: &str) -> SyntaxTree {
    let mut parser = Parser { tokens: lex(text), next: 0, builder: TreeBuilder::new() };
    parser.start(LatexKind::Root);
    while parser.peek().is_some() {
        parser.item();
    }
    parser.finish();
    parser.builder.finish().unwrap()
}

/// The files of `\usepackage` commands in a text.
fn packages(text: &str) -> Vec<String> {
    text.split("\\usepackage{")
        .skip(1)
        .filter_map(|rest| rest.split('}').next())
        .map(|name| format!("{}.sty", name))
        .collect()
}

/// Sets up a request from source files and a cursor position.
struct FeatureTester {
    files: Vec<(&'static str, &'static str)>,
    main: &'static str,
    line: u32,
    character: u32,
    new_name: &'static str,
}

impl FeatureTester {
    fn builder() -> Self {
        FeatureTester { files: Vec::new(), main: "", line: 0, character: 0, new_name: "" }
    }

    fn new_name(mut self, new_name: &'static str) -> Self {
        self.new_name = new_name;
        self
    }

    fn uri(&self, name: &str) -> String {
        name.to_owned()
    }

    fn rename(self) -> FeatureRequest<RenameParams> {
        let new_name = self.new_name.to_owned();
        let request = self.completion();
        FeatureRequest::new(
            RenameParams { position: request.params.position, new_name },
            request.subset,
            request.data,
        )
    }

    fn files(mut self, files: Vec<(&'static str, &'static str)>) -> Self {
        self.files = files;
        self
    }

    fn main(mut self, main: &'static str) -> Self {
        self.main = main;
        self
    }

    fn line(mut self, line: u32) -> Self {
        self.line = line;
        self
    }

    fn character(mut self, character: u32) -> Self {
        self.character = character;
        self
    }

    fn build(self) -> Self {
        self
    }

    fn completion(self) -> FeatureRequest<CompletionParams> {
        let mut files = self.files.clone();
        files.sort_by_key(|(name, _)| *name != self.main);
        let mut linked = Vec::new();
        let mut documents = Vec::new();
        for (name, text) in files {
            let data = if name.ends_with(".bib") {
                assert!(text.is_empty());
                let mut builder = TreeBuilder::new();
                assert!(builder.start_node(BibtexKind::Root.to_raw()));
                assert!(builder.finish_node());
                DocumentData::Bibtex(builder.finish().unwrap())
            } else {
                linked.extend(packages(text));
                DocumentData::Latex(parse_latex(text))
            };
            documents.push(Document::new(name.to_owned(), text.to_owned(), data).unwrap());
        }
        let database = reference_data();
        let components = database
            .components
            .into_iter()
            .filter(|component| component.file_names.iter().any(|file| linked.contains(file)))
            .collect();
        FeatureRequest::new(
            CompletionParams { position: Position::new(self.line, self.character) },
            WorkspaceSubset::new(documents),
            ReferenceData::new(components, database.symbols, database.colors),
        )
    }
}

fn curly_word(content: Option<&'static str>, closed: bool) -> Tree {
    let mut children = vec![token(LatexKind::LCurly, "{")];
    if let Some(content) = content {
        children.push(words(LatexKind::Key, content));
    }
    if closed {
        children.push(token(LatexKind::RCurly, "}"));
    }
    node(LatexKind::CurlyGroupWord, children)
}

fn curly_text(content: &'static str) -> Tree {
    node(
        LatexKind::CurlyGroup,
        vec![
            token(LatexKind::LCurly, "{"),
            words(LatexKind::Text, content),
            token(LatexKind::RCurly, "}"),
        ],
    )
}

fn acronym_definition() -> Tree {
    node(
        LatexKind::AcronymDefinition,
        vec![
            token(LatexKind::AcronymDefinitionName, "\\newacronym"),
            node(
                LatexKind::BrackGroup,
                vec![
                    token(LatexKind::LBrack, "["),
                    words(LatexKind::Key, "longplural"),
                    token(LatexKind::Eq, "="),
                    curly_text("Frames per Second"),
                    token(LatexKind::RBrack, "]"),
                ],
            ),
            curly_word(Some("fpsLabel"), true),
            curly_text("FPS"),
            curly_text("Frame per Second"),
            token(LatexKind::LineBreak, "\n"),
        ],
    )
}

fn acronym_document(content: Option<&'static str>, closed: bool) -> Document {
    let mut text = String::from(
        "\\newacronym[longplural={Frames per Second}]{fpsLabel}{FPS}{Frame per Second}\n\\acrshort{",
    );
    text.push_str(content.unwrap_or(""));
    if closed {
        text.push('}');
    }
    let tree = node(
        LatexKind::Root,
        vec![
            acronym_definition(),
            node(
                LatexKind::AcronymReference,
                vec![
                    token(LatexKind::AcronymReferenceName, "\\acrshort"),
                    curly_word(content, closed),
                ],
            ),
        ],
    );
    latex_document("main.tex", &text, &tree)
}

fn empty_latex_document() -> Document {
    latex_document("main.tex", "", &node(LatexKind::Root, vec![]))
}

fn usepackage() -> Tree {
    node(
        LatexKind::GenericCommand,
        vec![
            token(LatexKind::GenericCommandName, "\\usepackage"),
            curly_text("amsfonts"),
        ],
    )
}

fn acronym_names(items: &[InternalCompletionItem]) -> Vec<String> {
    items
        .iter()
        .map(|item| match &item.data {
            InternalCompletionItemData::Acronym { name } => name.clone(),
            other => panic!("unexpected candidate {:?}", other),
        })
        .collect()
}

#[test]
fn acronym_ref_test_empty_latex_document() {
    let request = FeatureTester::builder()
        .files(vec![("main.tex", "")])
        .main("main.tex")
        .line(0)
        .character(0)
        .build()
        .completion();

    let context = CursorContext::new(request);
    let mut actual_items = Vec::new();
    complete_acronyms(&context, &mut actual_items, CancellationToken::none());

    assert!(actual_items.is_empty());
}

#[test]
fn acronym_ref_test_empty_bibtex_document() {
    let request = FeatureTester::builder()
        .files(vec![("main.bib", "")])
        .main("main.bib")
        .line(0)
        .character(0)
        .build()
        .completion();

    let context = CursorContext::new(request);
    let mut actual_items = Vec::new();
    complete_acronyms(&context, &mut actual_items, CancellationToken::none());

    assert!(actual_items.is_empty());
}

#[test]
fn test_simple() {
    let request = FeatureTester::builder()
        .files(vec![("main.tex", "\\newacronym[longplural={Frames per Second}]{fpsLabel}{FPS}{Frame per Second}\n\\acrshort{f}")])
        .main("main.tex")
        .line(1)
        .character(11)
        .build()
        .completion();

    let context = CursorContext::new(request);
    let mut actual_items = Vec::new();
    complete_acronyms(&context, &mut actual_items, CancellationToken::none());

    assert!(!actual_items.is_empty());
    for item in actual_items {
        assert_eq!(item.range, TextRange::new(87, 88));
    }
}

#[test]
fn test_empty() {
    let request = FeatureTester::builder()
        .files(vec![("main.tex", "\\newacronym[longplural={Frames per Second}]{fpsLabel}{FPS}{Frame per Second}\n\\acrshort{}")])
        .main("main.tex")
        .line(1)
        .character(10)
        .build()
        .completion();

    let context = CursorContext::new(request);
    let mut actual_items = Vec::new();
    complete_acronyms(&context, &mut actual_items, CancellationToken::none());

    assert!(!actual_items.is_empty());
    for item in actual_items {
        assert_eq!(item.range, TextRange::new(87, 87));
    }
}

#[test]
fn test_after_group() {
    let request = FeatureTester::builder()
        .files(vec![("main.tex", "\\newacronym[longplural={Frames per Second}]{fpsLabel}{FPS}{Frame per Second}\n\\acrshort{}")])
        .main("main.tex")
        .line(1)
        .character(11)
        .build()
        .completion();

    let context = CursorContext::new(request);
    let mut actual_items = Vec::new();
    complete_acronyms(&context, &mut actual_items, CancellationToken::none());

    assert!(actual_items.is_empty());
}

#[test]
fn test_open_brace() {
    let request = FeatureTester::builder()
        .files(vec![("main.tex", "\\newacronym[longplural={Frames per Second}]{fpsLabel}{FPS}{Frame per Second}\n\\acrshort{f")])
        .main("main.tex")
        .line(1)
        .character(11)
        .build()
        .completion();

    let context = CursorContext::new(request);
    let mut actual_items = Vec::new();
    complete_acronyms(&context, &mut actual_items, CancellationToken::none());

    assert!(!actual_items.is_empty());
    for item in actual_items {
        assert_eq!(item.range, TextRange::new(87, 88));
    }
}

#[test]
fn acronym_after_closed_group_with_word() {
    let context = context(vec![acronym_document(Some("f"), true)], 1, 12);
    let mut actual_items = Vec::new();
    let done = complete_acronyms(&context, &mut actual_items, CancellationToken::none());

    assert_eq!(done, None);
    assert!(actual_items.is_empty());
}

#[test]
fn acronym_names_come_from_every_latex_document() {
    let other = latex_document(
        "other.tex",
        "\\newacronym[longplural={Frames per Second}]{fpsLabel}{FPS}{Frame per Second}\n",
        &node(LatexKind::Root, vec![acronym_definition()]),
    );
    let context = context(
        vec![acronym_document(Some("f"), true), empty_bibtex_document("refs.bib"), other],
        1,
        11,
    );
    let mut actual_items = vec![InternalCompletionItem::new(
        TextRange::new(0, 0),
        InternalCompletionItemData::Acronym { name: "kept".to_owned() },
    )];
    let done = complete_acronyms(&context, &mut actual_items, CancellationToken::none());

    assert_eq!(done, Some(()));
    assert_eq!(
        acronym_names(&actual_items),
        vec!["kept".to_owned(), "fpsLabel".to_owned(), "fpsLabel".to_owned()]
    );
}

#[test]
fn canceled_providers_add_nothing() {
    let source = CancellationTokenSource::new();
    source.cancel();
    let acronyms = context(vec![acronym_document(Some("f"), true)], 1, 11);
    let mut items = Vec::new();
    assert_eq!(complete_acronyms(&acronyms, &mut items, source.token()), None);
    assert_eq!(complete_acronyms_unless(&acronyms, &mut items, true), None);
    assert_eq!(complete_arguments(&acronyms, &mut items, source.token()), None);
    assert_eq!(complete_arguments_unless(&acronyms, &mut items, true), None);
    assert_eq!(complete_colors(&acronyms, &mut items, source.token()), None);
    assert_eq!(complete_colors_unless(&acronyms, &mut items, true), None);
    assert!(items.is_empty());
    assert_eq!(complete_acronyms_unless(&acronyms, &mut items, false), Some(()));
    assert_eq!(items.len(), 1);
}

fn mathbb_document(text: &str, groups: Vec<Tree>) -> Document {
    let mut children = vec![token(LatexKind::GenericCommandName, "\\mathbb")];
    children.extend(groups);
    let tree = node(LatexKind::Root, vec![node(LatexKind::GenericCommand, children)]);
    latex_document("main.tex", text, &tree)
}

fn closed_mathbb_document(text: &str, content: Option<&'static str>) -> Document {
    let mut group = vec![token(LatexKind::LCurly, "{")];
    if let Some(content) = content {
        group.push(words(LatexKind::Text, content));
    }
    group.push(token(LatexKind::RCurly, "}"));
    let tree = node(
        LatexKind::Root,
        vec![
            node(
                LatexKind::GenericCommand,
                vec![
                    token(LatexKind::GenericCommandName, "\\mathbb"),
                    node(LatexKind::CurlyGroup, group),
                ],
            ),
            usepackage(),
        ],
    );
    latex_document("main.tex", text, &tree)
}

#[test]
fn argument_test_empty_latex_document() {
    let request = FeatureTester::builder()
        .files(vec![("main.tex", "")])
        .main("main.tex")
        .line(0)
        .character(0)
        .build()
        .completion();

    let context = CursorContext::new(request);
    let mut actual_items = Vec::new();
    complete_arguments(&context, &mut actual_items, CancellationToken::none());

    assert!(actual_items.is_empty());
}

#[test]
fn argument_test_empty_bibtex_document() {
    let request = FeatureTester::builder()
        .files(vec![("main.bib", "")])
        .main("main.bib")
        .line(0)
        .character(0)
        .build()
        .completion();

    let context = CursorContext::new(request);
    let mut actual_items = Vec::new();
    complete_arguments(&context, &mut actual_items, CancellationToken::none());

    assert!(actual_items.is_empty());
}

#[test]
fn argument_test_latex_simple() {
    let request = FeatureTester::builder()
        .files(vec![("main.tex", r#"\mathbb{}\usepackage{amsfonts}"#)])
        .main("main.tex")
        .line(0)
        .character(8)
        .build()
        .completion();

    let context = CursorContext::new(request);
    let mut actual_items = Vec::new();
    complete_arguments(&context, &mut actual_items, CancellationToken::none());

    assert!(!actual_items.is_empty());
    for item in actual_items {
        assert_eq!(item.range, TextRange::new(8, 8));
    }
}

#[test]
fn test_latex_word() {
    let request = FeatureTester::builder()
        .files(vec![("main.tex", r#"\mathbb{foo}\usepackage{amsfonts}"#)])
        .main("main.tex")
        .line(0)
        .character(8)
        .build()
        .completion();

    let context = CursorContext::new(request);
    let mut actual_items = Vec::new();
    complete_arguments(&context, &mut actual_items, CancellationToken::none());

    assert!(!actual_items.is_empty());
    for item in actual_items {
        assert_eq!(item.range, TextRange::new(8, 11));
    }
}

#[test]
fn argument_test_latex_open_brace() {
    let request = FeatureTester::builder()
        .files(vec![("main.tex", "\\mathbb{ \\usepackage{amsfonts}")])
        .main("main.tex")
        .line(0)
        .character(8)
        .build()
        .completion();

    let context = CursorContext::new(request);
    let mut actual_items = Vec::new();
    complete_arguments(&context, &mut actual_items, CancellationToken::none());

    assert!(!actual_items.is_empty());
    for item in actual_items {
        assert_eq!(item.range, TextRange::new(8, 8));
    }
}

#[test]
fn test_latex_open_brace_second() {
    let request = FeatureTester::builder()
        .files(vec![("main.tex", "\\mathbb{}{\\usepackage{amsfonts}")])
        .main("main.tex")
        .line(0)
        .character(10)
        .build()
        .completion();

    let context = CursorContext::new(request);
    let mut actual_items = Vec::new();
    complete_arguments(&context, &mut actual_items, CancellationToken::none());

    assert!(actual_items.is_empty());
}

fn color_document(closed: bool) -> Document {
    let text = if closed { "\\color{}" } else { "\\color{" };
    let tree = node(
        LatexKind::Root,
        vec![node(
            LatexKind::ColorReference,
            vec![token(LatexKind::ColorReferenceName, "\\color"), curly_word(None, closed)],
        )],
    );
    latex_document("main.tex", text, &tree)
}

#[test]
fn color_test_empty_latex_document() {
    let request = FeatureTester::builder()
        .files(vec![("main.tex", "")])
        .main("main.tex")
        .line(0)
        .character(0)
        .build()
        .completion();

    let context = CursorContext::new(request);
    let mut actual_items = Vec::new();
    complete_colors(&context, &mut actual_items, CancellationToken::none());

    assert!(actual_items.is_empty());
}

#[test]
fn color_test_empty_bibtex_document() {
    let request = FeatureTester::builder()
        .files(vec![("main.bib", "")])
        .main("main.bib")
        .line(0)
        .character(0)
        .build()
        .completion();

    let context = CursorContext::new(request);
    let mut actual_items = Vec::new();
    complete_colors(&context, &mut actual_items, CancellationToken::none());

    assert!(actual_items.is_empty());
}

#[test]
fn color_test_latex_simple() {
    let request = FeatureTester::builder()
        .files(vec![("main.tex", "\\color{}")])
        .main("main.tex")
        .line(0)
        .character(7)
        .build()
        .completion();

    let context = CursorContext::new(request);
    let mut actual_items = Vec::new();
    complete_colors(&context, &mut actual_items, CancellationToken::none());

    assert!(!actual_items.is_empty());
    for item in actual_items {
        assert_eq!(item.range, TextRange::new(7, 7));
    }
}

#[test]
fn color_test_latex_open_brace() {
    let request = FeatureTester::builder()
        .files(vec![("main.tex", "\\color{")])
        .main("main.tex")
        .line(0)
        .character(7)
        .build()
        .completion();

    let context = CursorContext::new(request);
    let mut actual_items = Vec::new();
    complete_colors(&context, &mut actual_items, CancellationToken::none());

    assert!(!actual_items.is_empty());
    for item in actual_items {
        assert_eq!(item.range, TextRange::new(7, 7));
    }
}

#[test]
fn colors_are_not_offered_in_an_acronym_reference() {
    let context = context(vec![acronym_document(Some("f"), true)], 1, 11);
    let mut actual_items = Vec::new();
    assert_eq!(complete_colors(&context, &mut actual_items, CancellationToken::none()), None);
    assert!(actual_items.is_empty());
}

#[test]
fn providers_yield_nothing_outside_the_content() {
    for (line, character) in [(0, 9), (1, 0), (7, 3)] {
        let context = context(vec![color_document(true)], line, character);
        let mut actual_items = Vec::new();
        complete_acronyms(&context, &mut actual_items, CancellationToken::none());
        complete_arguments(&context, &mut actual_items, CancellationToken::none());
        complete_colors(&context, &mut actual_items, CancellationToken::none());
        assert!(actual_items.is_empty());
        assert!(LatexCommandSymbolCompletionProvider::execute(context.request()).is_empty());
    }
}

#[test]
fn quality_levels() {
    let quality = OrderByQualityCompletionProvider::get_quality;
    assert_eq!(quality(Some("foo"), "foo"), 7);
    assert_eq!(quality(Some("foo"), "Foo"), 6);
    assert_eq!(quality(Some("foo"), "foobar"), 5);
    assert_eq!(quality(Some("foo"), "FooBar"), 4);
    assert_eq!(quality(Some("foo"), "barfoo"), 3);
    assert_eq!(quality(Some("foo"), "barFOO"), 2);
    assert_eq!(quality(Some("foo"), "bar"), 1);
    assert_eq!(quality(None, "foo"), 0);
    assert_eq!(quality(Some(""), ""), 7);
    assert_eq!(quality(Some(""), "bar"), 5);
    assert_eq!(quality(Some("É"), "école"), 4);
}

#[test]
fn score_match_takes_the_lowercase_forms_as_given() {
    assert_eq!(score_match("foo", "Foo", "foo", "foo"), 6);
    assert_eq!(score_match("foo", "Foo", "foo", "Foo"), 1);
    assert_eq!(score_match("foo", "xFoo", "foo", "xfoo"), 2);
}

fn color_item(name: &str) -> InternalCompletionItem {
    InternalCompletionItem::new(
        TextRange::new(1, 4),
        InternalCompletionItemData::Color { name: name.to_owned() },
    )
}

fn labels(items: &[InternalCompletionItem]) -> Vec<&str> {
    items.iter().map(|item| item.label()).collect()
}

fn command_document(text: &'static str) -> Document {
    let tree = node(
        LatexKind::Root,
        vec![node(LatexKind::GenericCommand, vec![token(LatexKind::GenericCommandName, text)])],
    );
    latex_document("main.tex", text, &tree)
}

#[test]
fn ordering_is_stable_and_descending() {
    let context = context(vec![command_document("\\red")], 0, 4);
    let items = vec![
        color_item("blue"),
        color_item("darkred"),
        color_item("Red"),
        color_item("redder"),
        color_item("red"),
        color_item("green"),
        color_item("REDDISH"),
        color_item("bored"),
        color_item("infraRED"),
        color_item("reddest"),
    ];
    let ordered = OrderByQualityCompletionProvider::execute(context.request(), items);
    assert_eq!(
        labels(&ordered),
        vec![
            "red", "Red", "redder", "reddest", "REDDISH", "darkred", "bored", "infraRED", "blue",
            "green"
        ]
    );
    for item in &ordered {
        assert_eq!(item.range, TextRange::new(1, 4));
    }
}

#[test]
fn ordering_without_a_query_keeps_the_order() {
    let context = context(vec![command_document("\\red")], 3, 0);
    let items = vec![color_item("b"), color_item("a"), color_item("c")];
    let ordered = OrderByQualityCompletionProvider::execute(context.request(), items);
    assert_eq!(labels(&ordered), vec!["b", "a", "c"]);
}

#[test]
fn query_of_a_latex_document() {
    let document = acronym_document(Some("f"), true);
    let query = |line, character| {
        OrderByQualityCompletionProvider::get_query(&document, Position::new(line, character))
    };
    // inside and right after a command name
    assert_eq!(query(0, 3), Some("newacronym"));
    assert_eq!(query(1, 9), Some("acrshort"));
    // before the escape character of the first command: the command node
    assert_eq!(query(0, 0), Some("newacronym"));
    // in a key: the word before the cursor
    assert_eq!(query(1, 11), Some("f"));
    assert_eq!(query(0, 15), Some("longplural"));
    // in running text: the last word that starts before the cursor
    assert_eq!(query(0, 30), Some("Frames"));
    assert_eq!(query(0, 31), Some("Frames"));
    assert_eq!(query(0, 32), Some("per"));
    assert_eq!(query(0, 41), Some("Second"));
    assert_eq!(query(0, 24), None);
    // on a brace of a group: the group
    assert_eq!(query(0, 53), Some(""));
    assert_eq!(query(0, 54), None);
    assert_eq!(query(0, 55), Some("FPS"));
    // outside the text
    assert_eq!(query(2, 0), None);
    assert_eq!(query(1, 13), None);
}

enum Bib {
    Node(BibtexKind, Vec<Bib>),
    Token(BibtexKind, &'static str),
}

fn emit_bib(builder: &mut TreeBuilder, tree: &Bib) {
    match tree {
        Bib::Node(kind, children) => {
            assert!(builder.start_node(kind.to_raw()));
            for child in children {
                emit_bib(builder, child);
            }
            assert!(builder.finish_node());
        }
        Bib::Token(kind, text) => {
            assert!(builder.token(kind.to_raw(), text));
        }
    }
}

#[test]
fn query_of_a_bibtex_document() {
    let text = "junk @article{key, title = {A \\LaTeX}}";
    let tree = Bib::Node(
        BibtexKind::Root,
        vec![
            Bib::Node(
                BibtexKind::Comment,
                vec![Bib::Token(BibtexKind::Word, "junk"), Bib::Token(BibtexKind::Whitespace, " ")],
            ),
            Bib::Node(
                BibtexKind::Entry,
                vec![
                    Bib::Token(BibtexKind::EntryType, "@article"),
                    Bib::Token(BibtexKind::LCurly, "{"),
                    Bib::Token(BibtexKind::Word, "key"),
                    Bib::Token(BibtexKind::Comma, ","),
                    Bib::Token(BibtexKind::Whitespace, " "),
                    Bib::Node(
                        BibtexKind::Field,
                        vec![
                            Bib::Token(BibtexKind::Word, "title"),
                            Bib::Token(BibtexKind::Whitespace, " "),
                            Bib::Token(BibtexKind::Eq, "="),
                            Bib::Token(BibtexKind::Whitespace, " "),
                            Bib::Node(
                                BibtexKind::BraceGroup,
                                vec![
                                    Bib::Token(BibtexKind::LCurly, "{"),
                                    Bib::Node(
                                        BibtexKind::Token,
                                        vec![Bib::Token(BibtexKind::Word, "A")],
                                    ),
                                    Bib::Token(BibtexKind::Whitespace, " "),
                                    Bib::Node(
                                        BibtexKind::Command,
                                        vec![Bib::Token(BibtexKind::CommandName, "\\LaTeX")],
                                    ),
                                    Bib::Token(BibtexKind::RCurly, "}"),
                                ],
                            ),
                        ],
                    ),
                    Bib::Token(BibtexKind::RCurly, "}"),
                ],
            ),
        ],
    );
    let mut builder = TreeBuilder::new();
    emit_bib(&mut builder, &tree);
    let document = Document::new(
        "main.bib".to_owned(),
        text.to_owned(),
        DocumentData::Bibtex(builder.finish().unwrap()),
    )
    .unwrap();
    let query = |character| {
        OrderByQualityCompletionProvider::get_query(&document, Position::new(0, character))
    };
    assert_eq!(query(2), Some("junk"));
    assert_eq!(query(9), Some("article"));
    assert_eq!(query(15), Some(""));
    assert_eq!(query(21), Some("title"));
    assert_eq!(query(26), Some(""));
    assert_eq!(query(27), Some(""));
    assert_eq!(query(28), Some("A"));
    assert_eq!(query(29), Some("A"));
    assert_eq!(query(33), Some("LaTeX"));
    assert_eq!(query(39), None);
}

#[test]
fn command_symbols_of_linked_components() {
    let context = context(vec![command_document("\\ma")], 0, 3);
    let items = LatexCommandSymbolCompletionProvider::execute(context.request());
    assert_eq!(
        items,
        vec![
            InternalCompletionItem::new(
                TextRange::new(1, 3),
                InternalCompletionItemData::CommandSymbol {
                    name: "varepsilon".to_owned(),
                    component: None,
                    image: None
                }
            ),
            InternalCompletionItem::new(
                TextRange::new(1, 3),
                InternalCompletionItemData::CommandSymbol {
                    name: "mathbb".to_owned(),
                    component: Some("amsfonts.sty".to_owned()),
                    image: None
                }
            ),
        ]
    );
}

#[test]
fn command_symbols_need_a_command_under_the_cursor() {
    let at_start = context(vec![command_document("\\ma")], 0, 0);
    assert!(LatexCommandSymbolCompletionProvider::execute(at_start.request()).is_empty());
    let in_group = context(vec![color_document(true)], 0, 7);
    assert!(LatexCommandSymbolCompletionProvider::execute(in_group.request()).is_empty());
    let bibtex = context(vec![empty_bibtex_document("main.bib")], 0, 0);
    assert!(LatexCommandSymbolCompletionProvider::execute(bibtex.request()).is_empty());
}

fn request(documents: Vec<Document>, line: u32, character: u32) -> FeatureRequest<CompletionParams> {
    FeatureRequest::new(
        CompletionParams { position: Position::new(line, character) },
        WorkspaceSubset::new(documents),
        reference_data(),
    )
}

#[test]
fn completion_merges_and_orders() {
    // colors at the cursor inside `\color{}`; no query, so the roster order stays
    let items = complete(request(vec![color_document(true)], 0, 7), CancellationToken::none());
    assert_eq!(labels(&items), vec!["black", "blue", "red"]);

    // command symbols after `\ma`, best match first
    let items = complete(request(vec![command_document("\\ma")], 0, 3), CancellationToken::none());
    assert_eq!(labels(&items), vec!["mathbb", "varepsilon"]);

    // acronyms in `\acrshort{f}`
    let items =
        complete(request(vec![acronym_document(Some("f"), true)], 1, 11), CancellationToken::none());
    assert_eq!(labels(&items), vec!["fpsLabel"]);

    // nothing outside the text
    let items = complete(request(vec![color_document(true)], 4, 0), CancellationToken::none());
    assert!(items.is_empty());
}

#[test]
fn canceled_completion_keeps_what_ignores_the_token() {
    let source = CancellationTokenSource::new();
    source.cancel();
    let items = complete(request(vec![color_document(true)], 0, 7), source.token());
    assert!(items.is_empty());
    let items = complete(request(vec![command_document("\\ma")], 0, 3), source.token());
    assert_eq!(labels(&items), vec!["mathbb", "varepsilon"]);

    let context = context(vec![color_document(true)], 0, 7);
    assert!(complete_in_context(&context, false, false, true).is_empty());
    assert_eq!(labels(&complete_in_context(&context, true, true, false)), vec!["black", "blue", "red"]);
}

#[test]
fn acronym_candidates_carry_the_defined_names() {
    let context = context(vec![acronym_document(Some("f"), true)], 1, 11);
    let mut actual_items = Vec::new();
    complete_acronyms(&context, &mut actual_items, CancellationToken::none());
    assert_eq!(
        actual_items,
        vec![InternalCompletionItem::new(
            TextRange::new(87, 88),
            InternalCompletionItemData::Acronym { name: "fpsLabel".to_owned() }
        )]
    );
}

#[test]
fn argument_candidates_carry_the_suggested_values() {
    let document = closed_mathbb_document(r#"\mathbb{}\usepackage{amsfonts}"#, None);
    let context = context(vec![document], 0, 8);
    let mut actual_items = Vec::new();
    complete_arguments(&context, &mut actual_items, CancellationToken::none());
    assert_eq!(
        actual_items,
        vec![
            InternalCompletionItem::new(
                TextRange::new(8, 8),
                InternalCompletionItemData::Argument {
                    name: "A".to_owned(),
                    image: Some("𝔸".to_owned())
                }
            ),
            InternalCompletionItem::new(
                TextRange::new(8, 8),
                InternalCompletionItemData::Argument { name: "B".to_owned(), image: None }
            ),
        ]
    );
}

#[test]
fn arguments_need_a_linked_component() {
    let request = FeatureTester::builder()
        .files(vec![("main.tex", r#"\mathbb{}"#)])
        .main("main.tex")
        .line(0)
        .character(8)
        .build()
        .completion();
    let context = CursorContext::new(request);
    let mut actual_items = Vec::new();
    let done = complete_arguments(&context, &mut actual_items, CancellationToken::none());
    assert_eq!(done, Some(()));
    assert!(actual_items.is_empty());
}

#[test]
fn color_candidates_carry_the_color_names() {
    let context = context(vec![color_document(true)], 0, 7);
    let mut actual_items = Vec::new();
    complete_colors(&context, &mut actual_items, CancellationToken::none());
    let names: Vec<&str> = actual_items.iter().map(|item| item.label()).collect();
    assert_eq!(names, vec!["black", "blue", "red"]);
}

#[test]
fn test_command() {
    let tester = FeatureTester::builder()
        .files(vec![
            ("foo.tex", r#"\baz\include{bar.tex}"#),
            ("bar.tex", r#"\baz"#),
        ])
        .main("foo.tex")
        .line(0)
        .character(2)
        .new_name("qux")
        .build();

    let uri1 = tester.uri("foo.tex");
    let uri2 = tester.uri("bar.tex");
    let req = tester.rename();

    let context = CursorContext::new(req);
    let actual_edit = rename_command(&context, CancellationToken::none()).unwrap();

    let new_simple = |start_line, start_character, end_line, end_character| {
        Range::new(
            Position::new(start_line, start_character),
            Position::new(end_line, end_character),
        )
    };
    assert_eq!(
        actual_edit.get(&uri1),
        Some(&vec![TextEdit::new(new_simple(0, 1, 0, 4), "qux".into())])
    );
    assert_eq!(
        actual_edit.get(&uri2),
        Some(&vec![TextEdit::new(new_simple(0, 1, 0, 4), "qux".into())])
    );
    assert_eq!(actual_edit.entries().len(), 2);
}

#[test]
fn an_open_group_ends_where_the_next_group_starts() {
    // `\acrshort{a{b}`: the first group is never closed and a second one follows
    let tree = node(
        LatexKind::Root,
        vec![node(
            LatexKind::AcronymReference,
            vec![
                token(LatexKind::AcronymReferenceName, "\\acrshort"),
                curly_word(Some("a"), false),
                curly_text("b"),
            ],
        )],
    );
    let document = || latex_document("main.tex", "\\acrshort{a{b}", &tree);
    let inside = context(vec![document()], 0, 10);
    let group = CurlyGroupWord::cast(inside.main_tree(), 3).unwrap();
    assert!(inside.is_inside_latex_curly(&group));
    assert!(inside.find_curly_group_word().is_some());
    let boundary = context(vec![document()], 0, 11);
    assert!(!boundary.is_inside_latex_curly(&group));
    assert_eq!(boundary.find_curly_group_word(), None);
    let mut items = Vec::new();
    assert_eq!(complete_acronyms(&boundary, &mut items, CancellationToken::none()), None);
}

#[test]
fn the_word_under_the_cursor() {
    let context = context(vec![acronym_document(Some("f"), true)], 1, 11);
    let (text, range, group) = context.find_curly_group_word().unwrap();
    assert_eq!(text, "f");
    assert_eq!(range, TextRange::new(87, 88));
    assert_eq!(context.main_tree().kind(group.syntax()), LatexKind::CurlyGroupWord.to_raw());
    assert!(context.is_inside_latex_curly(&group));
    // at the opening brace and right before the closing brace
    for character in [9, 10, 11] {
        let context = self::context(vec![acronym_document(Some("f"), true)], 1, character);
        assert!(context.is_inside_latex_curly(&group));
    }
    // right after the closing brace
    let after = self::context(vec![acronym_document(Some("f"), true)], 1, 12);
    assert!(!after.is_inside_latex_curly(&group));
}

#[test]
fn ordering_agrees_with_a_stable_sort_by_score() {
    let alphabet = ["re", "Re", "RE", "d", "D", "x", "red", "Red", "", "er"];
    let mut state: u32 = 12345;
    let mut next = move || {
        state = state.wrapping_mul(1664525).wrapping_add(1013904223);
        (state >> 16) as usize
    };
    for round in 0..50 {
        let mut items = Vec::new();
        for index in 0..(round % 17) {
            let mut label = String::new();
            for _ in 0..next() % 4 {
                label.push_str(alphabet[next() % alphabet.len()]);
            }
            items.push(InternalCompletionItem::new(
                TextRange::new(index, index),
                InternalCompletionItemData::Color { name: label },
            ));
        }
        let mut expected = items.clone();
        expected.sort_by_key(|item| {
            -OrderByQualityCompletionProvider::get_quality(Some("red"), item.label())
        });
        let context = context(vec![command_document("\\red")], 0, 4);
        let ordered = OrderByQualityCompletionProvider::execute(context.request(), items);
        assert_eq!(ordered, expected);
    }
}

#[test]
fn query_of_bibtex_records() {
    let text = "@preamble{x}@string{a=b}";
    let tree = Bib::Node(
        BibtexKind::Root,
        vec![
            Bib::Node(
                BibtexKind::Preamble,
                vec![
                    Bib::Token(BibtexKind::PreambleType, "@preamble"),
                    Bib::Token(BibtexKind::LCurly, "{"),
                    Bib::Node(BibtexKind::Token, vec![Bib::Token(BibtexKind::Word, "x")]),
                    Bib::Token(BibtexKind::RCurly, "}"),
                ],
            ),
            Bib::Node(
                BibtexKind::StringDefinition,
                vec![
                    Bib::Token(BibtexKind::StringType, "@string"),
                    Bib::Token(BibtexKind::LCurly, "{"),
                    Bib::Token(BibtexKind::Word, "a"),
                    Bib::Token(BibtexKind::Eq, "="),
                    Bib::Node(
                        BibtexKind::Value,
                        vec![Bib::Node(
                            BibtexKind::Token,
                            vec![Bib::Token(BibtexKind::Word, "b")],
                        )],
                    ),
                    Bib::Token(BibtexKind::RCurly, "}"),
                ],
            ),
        ],
    );
    let mut builder = TreeBuilder::new();
    emit_bib(&mut builder, &tree);
    let document = Document::new(
        "main.bib".to_owned(),
        text.to_owned(),
        DocumentData::Bibtex(builder.finish().unwrap()),
    )
    .unwrap();
    let query = |character| {
        OrderByQualityCompletionProvider::get_query(&document, Position::new(0, character))
    };
    assert_eq!(query(0), Some("preamble"));
    assert_eq!(query(4), Some("preamble"));
    assert_eq!(query(10), Some("x"));
    // the end of the first record, where the second begins
    assert_eq!(query(12), Some(""));
    assert_eq!(query(13), Some("string"));
    assert_eq!(query(20), Some(""));
    assert_eq!(query(22), Some("b"));
    assert_eq!(query(24), Some(""));
    assert_eq!(query(25), None);
}
