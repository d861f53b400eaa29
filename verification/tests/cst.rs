use texlab::features::cursor::{token_left_of, token_right_of, Cursor};
use texlab::syntax::bibtex::{BibtexKind, Entry, Field};
use texlab::syntax::builder::TreeBuilder;
use texlab::syntax::cst::{CstNode, SyntaxTree};
use texlab::syntax::offset::{char_width, str_width, TextRange};
use texlab::syntax::latex::{
    command_name, right_curly, small_range, AcronymDefinition, AcronymReference, ColorReference,
    CurlyGroup, CurlyGroupWord, GenericCommand, Key, LatexKind,
};

/// `\foo{a b }% c` followed by a line break, under a root.
fn sample() -> SyntaxTree {
    let mut b = TreeBuilder::new();
    assert!(b.start_node(LatexKind::Root.to_raw())); // 0
    assert!(b.start_node(LatexKind::GenericCommand.to_raw())); // 1
    assert!(b.token(LatexKind::GenericCommandName.to_raw(), "\\foo")); // 2
    assert!(b.start_node(LatexKind::CurlyGroupWord.to_raw())); // 3
    assert!(b.token(LatexKind::LCurly.to_raw(), "{")); // 4
    assert!(b.start_node(LatexKind::Key.to_raw())); // 5
    assert!(b.token(LatexKind::Word.to_raw(), "a")); // 6
    assert!(b.token(LatexKind::Whitespace.to_raw(), " ")); // 7
    assert!(b.token(LatexKind::Word.to_raw(), "b")); // 8
    assert!(b.token(LatexKind::Whitespace.to_raw(), " ")); // 9
    assert!(b.finish_node());
    assert!(b.token(LatexKind::RCurly.to_raw(), "}")); // 10
    assert!(b.token(LatexKind::Comment.to_raw(), "% c")); // 11
    assert!(b.finish_node());
    assert!(b.finish_node());
    assert!(b.token(LatexKind::LineBreak.to_raw(), "\n")); // 12
    assert!(b.finish_node());
    b.finish().unwrap()
}

#[test]
fn builder_lays_out_the_table_in_document_order() {
    let tree = sample();
    assert_eq!(tree.len(), 13);
    let parents: Vec<Option<usize>> = (0..tree.len()).map(|i| tree.parent(i)).collect();
    assert_eq!(
        parents,
        vec![
            None,
            Some(0),
            Some(1),
            Some(1),
            Some(3),
            Some(3),
            Some(5),
            Some(5),
            Some(5),
            Some(5),
            Some(3),
            Some(3),
            Some(0)
        ]
    );
    let ends: Vec<usize> = (0..tree.len()).map(|i| tree.end_index(i)).collect();
    assert_eq!(ends, vec![13, 12, 3, 12, 5, 10, 7, 8, 9, 10, 11, 12, 13]);
    assert_eq!(tree.range(0), TextRange::new(0, 14));
    assert_eq!(tree.range(1), TextRange::new(0, 13));
    assert_eq!(tree.range(3), TextRange::new(4, 13));
    assert_eq!(tree.range(5), TextRange::new(5, 9));
    assert_eq!(tree.range(8), TextRange::new(7, 8));
    assert_eq!(tree.range(11), TextRange::new(10, 13));
    assert_eq!(tree.text(2), "\\foo");
    assert_eq!(tree.text(3), "");
    assert!(tree.is_token(2));
    assert!(!tree.is_token(3));
    assert_eq!(tree.kind(5), LatexKind::Key.to_raw());
}

#[test]
fn children_are_the_direct_descendants() {
    let tree = sample();
    assert_eq!(tree.children(0), vec![1, 12]);
    assert_eq!(tree.children(1), vec![2, 3]);
    assert_eq!(tree.children(3), vec![4, 5, 10, 11]);
    assert_eq!(tree.children(5), vec![6, 7, 8, 9]);
    assert_eq!(tree.children(6), Vec::<usize>::new());
    assert_eq!(tree.first_child_of_kind(3, LatexKind::Key.to_raw(), false), Some(5));
    assert_eq!(tree.first_child_of_kind(3, LatexKind::Key.to_raw(), true), None);
    assert_eq!(tree.first_child_of_kind(1, LatexKind::Word.to_raw(), true), None);
    assert_eq!(tree.first_child_of_kind(5, LatexKind::Word.to_raw(), true), Some(6));
    assert_eq!(tree.first_token_child(3), Some(4));
    assert_eq!(tree.first_token_child(0), Some(12));
}

#[test]
fn builder_refuses_what_is_not_a_tree() {
    let mut b = TreeBuilder::new();
    assert!(!b.token(LatexKind::Word.to_raw(), "a"));
    assert!(!b.finish_node());
    assert!(b.start_node(LatexKind::Root.to_raw()));
    assert!(b.start_node(LatexKind::Text.to_raw()));
    assert!(b.finish_node());
    assert!(b.finish_node());
    assert!(!b.start_node(LatexKind::Root.to_raw()));
    assert!(!b.token(LatexKind::Word.to_raw(), "a"));
    assert!(!b.finish_node());
    let tree = b.finish().unwrap();
    assert_eq!(tree.len(), 2);

    assert!(TreeBuilder::new().finish().is_none());
    let mut open = TreeBuilder::new();
    assert!(open.start_node(LatexKind::Root.to_raw()));
    assert!(open.finish().is_none());
}

#[test]
fn widths_are_those_of_utf8() {
    assert_eq!(char_width('a'), 1);
    assert_eq!(char_width('é'), 2);
    assert_eq!(char_width('€'), 3);
    assert_eq!(char_width('😀'), 4);
    assert_eq!(str_width(""), Some(0));
    assert_eq!(str_width("aé€😀"), Some(10));
}

#[test]
fn text_ranges() {
    let range = TextRange::new(2, 5);
    assert_eq!((range.start(), range.end(), range.len()), (2, 5, 3));
    assert!(!range.is_empty());
    assert!(TextRange::empty(4).is_empty());
    assert!(!range.contains(1));
    assert!(range.contains(2));
    assert!(range.contains(4));
    assert!(!range.contains(5));
    assert!(range.contains_inclusive(5));
    assert!(!range.contains_inclusive(6));
}

#[test]
fn a_cast_to_another_kind_gives_nothing() {
    let tree = sample();
    for node in 0..tree.len() + 2 {
        let kind = if node < tree.len() && !tree.is_token(node) {
            LatexKind::from_raw(tree.kind(node))
        } else {
            None
        };
        assert_eq!(CurlyGroup::cast(&tree, node).is_some(), kind == Some(LatexKind::CurlyGroup));
        assert_eq!(
            CurlyGroupWord::cast(&tree, node).is_some(),
            kind == Some(LatexKind::CurlyGroupWord)
        );
        assert_eq!(Key::cast(&tree, node).is_some(), kind == Some(LatexKind::Key));
        assert_eq!(
            GenericCommand::cast(&tree, node).is_some(),
            kind == Some(LatexKind::GenericCommand)
        );
        assert!(AcronymDefinition::cast(&tree, node).is_none());
        assert!(AcronymReference::cast(&tree, node).is_none());
        assert!(ColorReference::cast(&tree, node).is_none());
        // the tags of another grammar do not leak in
        assert_eq!(
            Entry::cast(&tree, node).is_some(),
            kind.map(LatexKind::to_raw) == Some(BibtexKind::Entry.to_raw())
        );
        assert_eq!(
            Field::cast(&tree, node).is_some(),
            kind.map(LatexKind::to_raw) == Some(BibtexKind::Field.to_raw())
        );
    }
    assert_eq!(Key::cast(&tree, 5).unwrap().syntax(), 5);
}

#[test]
fn kinds_survive_the_trip_through_their_tag() {
    for raw in 0..40u16 {
        if let Some(kind) = LatexKind::from_raw(raw) {
            assert_eq!(kind.to_raw(), raw);
        }
        if let Some(kind) = BibtexKind::from_raw(raw) {
            assert_eq!(kind.to_raw(), raw);
        }
    }
    assert_eq!(LatexKind::from_raw(LatexKind::Include.to_raw()), Some(LatexKind::Include));
    assert_eq!(LatexKind::from_raw(27), None);
    assert_eq!(BibtexKind::from_raw(BibtexKind::Concat.to_raw()), Some(BibtexKind::Concat));
    assert_eq!(BibtexKind::from_raw(26), None);
    assert!(LatexKind::IncludeName.is_command_name());
    assert!(!LatexKind::Include.is_command_name());
    assert!(LatexKind::Include.is_command());
    assert!(LatexKind::Comment.is_trivia());
    assert!(LatexKind::Key.is_text());
}

#[test]
fn typed_views_read_the_tree() {
    let tree = sample();
    let command = GenericCommand::cast(&tree, 1).unwrap();
    assert_eq!(command.name(&tree), Some(2));
    assert_eq!(command_name(&tree, 3), None);
    let group = CurlyGroupWord::cast(&tree, 3).unwrap();
    let key = group.key(&tree).unwrap();
    assert_eq!(key.syntax(), 5);
    assert_eq!(key.to_string(&tree), "a b");
    assert_eq!(right_curly(&tree, 3), Some(10));
    assert_eq!(right_curly(&tree, 5), None);
    // trailing blanks and comments do not count
    assert_eq!(small_range(&tree, 3), TextRange::new(4, 10));
    assert_eq!(small_range(&tree, 5), TextRange::new(5, 8));
    assert_eq!(small_range(&tree, 0), TextRange::new(0, 10));
    assert_eq!(small_range(&tree, 11), TextRange::new(10, 10));
}

#[test]
fn tokens_at_an_offset() {
    let tree = sample();
    assert_eq!((token_left_of(&tree, 0), token_right_of(&tree, 0)), (Some(2), Some(2)));
    assert_eq!((token_left_of(&tree, 2), token_right_of(&tree, 2)), (Some(2), Some(2)));
    assert_eq!((token_left_of(&tree, 4), token_right_of(&tree, 4)), (Some(2), Some(4)));
    assert_eq!((token_left_of(&tree, 6), token_right_of(&tree, 6)), (Some(6), Some(7)));
    assert_eq!((token_left_of(&tree, 14), token_right_of(&tree, 14)), (Some(12), Some(12)));
    assert_eq!((token_left_of(&tree, 15), token_right_of(&tree, 15)), (None, None));
}

#[test]
fn the_cursor_prefers_names_and_words() {
    let tree = sample();
    let at = |offset| {
        Cursor::new_latex(&tree, token_left_of(&tree, offset), token_right_of(&tree, offset))
    };
    // a command name on the left wins over the brace on the right
    assert_eq!(at(4), Some(Cursor::Latex(2)));
    // a word on the right wins over the brace on the left
    assert_eq!(at(5), Some(Cursor::Latex(6)));
    // a word on the left wins over a blank on the right
    assert_eq!(at(6), Some(Cursor::Latex(6)));
    // a blank inside a key on the left wins over the brace on the right
    assert_eq!(at(9), Some(Cursor::Latex(9)));
    // otherwise the token on the right
    assert_eq!(at(10), Some(Cursor::Latex(11)));
    assert_eq!(at(15), None);
    assert_eq!(Cursor::Latex(2).command_range(&tree, 4), Some(TextRange::new(1, 4)));
    assert_eq!(Cursor::Latex(2).command_range(&tree, 0), None);
    assert_eq!(Cursor::Latex(6).command_range(&tree, 6), None);
    assert_eq!(Cursor::Nothing.command_range(&tree, 2), None);
    assert_eq!(Cursor::Latex(2).as_latex(), Some(2));
    assert_eq!(Cursor::Latex(2).as_bibtex(), None);
    assert_eq!(Cursor::Bibtex(2).as_bibtex(), Some(2));
}

#[test]
fn nodes_around_an_offset() {
    let tree = sample();
    // inside the key
    assert_eq!(tree.nodes_at(6), vec![0, 1, 3, 5]);
    assert_eq!(tree.deepest_node_at(6), 5);
    // on the boundary between the name and the group the group is entered
    assert_eq!(tree.nodes_at(4), vec![0, 1, 3]);
    // at the very start
    assert_eq!(tree.nodes_at(0), vec![0, 1]);
    // on the line break at the end only the root is left
    assert_eq!(tree.nodes_at(14), vec![0]);
    assert_eq!(tree.deepest_node_at(14), 0);
    // outside the tree
    assert_eq!(tree.nodes_at(15), Vec::<usize>::new());
    assert_eq!(tree.first_node_child_at(3, 9), Some(5));
    assert_eq!(tree.first_node_child_at(3, 10), None);
}

#[test]
fn of_two_neighbours_the_left_one_is_entered() {
    let mut b = TreeBuilder::new();
    assert!(b.start_node(LatexKind::Root.to_raw())); // 0
    assert!(b.start_node(LatexKind::CurlyGroup.to_raw())); // 1
    assert!(b.token(LatexKind::LCurly.to_raw(), "{")); // 2
    assert!(b.token(LatexKind::RCurly.to_raw(), "}")); // 3
    assert!(b.finish_node());
    assert!(b.start_node(LatexKind::CurlyGroup.to_raw())); // 4
    assert!(b.token(LatexKind::LCurly.to_raw(), "{")); // 5
    assert!(b.token(LatexKind::RCurly.to_raw(), "}")); // 6
    assert!(b.finish_node());
    assert!(b.finish_node());
    let tree = b.finish().unwrap();
    assert_eq!(tree.nodes_at(2), vec![0, 1]);
    assert_eq!(tree.nodes_at(3), vec![0, 4]);
}
