use tweep::FullContext;
use tweep::Position;
use tweep::SubContextRange;
use tweep::TwineContent;
use tweep::TwineLink;
use tweep::Warning;
use tweep::WarningType;

#[test]
fn twine_content_a_test() {
    let input = "foo\nbar".to_string();
    let out = TwineContent::parse(FullContext::from(None, input));
    let (res, _) = out.take();
    assert_eq!(res.is_ok(), true);
    let content = res.ok().unwrap();
    assert_eq!(content.content, "foo\nbar\n");
}

#[test]
fn links() {
    let input = "[[foo]]\n[[Pipe link|bar]]\n[[baz<-Left link]]\n[[Right link->qux]]\n".to_string();
    let context = FullContext::from(None, input);
    let out = TwineContent::parse(context.clone());
    let (res, warnings) = out.take();
    assert_eq!(warnings.is_empty(), true);
    assert_eq!(res.is_ok(), true);
    let content = res.ok().unwrap();
    let expected_targets = vec!["foo", "bar", "baz", "qux"];
    let expected_lens = vec![7, 17, 18, 19];
    let expected_links: Vec<TwineLink> = (1 as usize..5)
        .map(|row| {
            TwineLink::new(
                expected_targets[row - 1].to_string(),
                context.subcontext(SubContextRange::between(
                    Position::rel(row, 1),
                    Position::rel(row, expected_lens[row - 1]),
                )),
            )
        })
        .collect();
    assert_eq!(content.get_links(), &expected_links);
}

#[test]
fn unclosed_link() {
    let context = FullContext::from(None, "blah [[unclosed\nlink]] blah blah\n\n".to_string());
    let out = TwineContent::parse(context.clone());
    let (res, warnings) = out.take();
    let expected = Warning::new(
        WarningType::UnclosedLink,
        Some(context.subcontext(SubContextRange::between(
            Position::rel(1, 6),
            Position::rel(1, 15),
        ))),
    );
    assert_eq!(warnings, vec![expected]);
    assert_eq!(res.is_ok(), true);
    let content = res.ok().unwrap();
    assert!(content.links.is_empty());
}

#[test]
fn whitespace_in_link() {
    let input = "[[ foo]]
[[bar ]]
[[text|baz ]]
[[text| qux]]
[[quux <-text]]
[[ quuz<-text]]
[[text-> corge]]
[[text->grault ]]"
        .to_string();
    let context = FullContext::from(None, input);
    let out = TwineContent::parse(context.clone());
    let (res, warnings) = out.take();
    let expected_lens = vec![8, 8, 13, 13, 15, 15, 16, 17];
    let expected_warnings: Vec<Warning> = (1 as usize..9)
        .map(|row| {
            Warning::new(
                WarningType::WhitespaceInLink,
                Some(context.subcontext(SubContextRange::between(
                    Position::rel(row, 1),
                    Position::rel(row, expected_lens[row - 1]),
                ))),
            )
        })
        .collect();
    assert_eq!(warnings, expected_warnings);
    assert_eq!(res.is_ok(), true);
    let content = res.ok().unwrap();
    let expected_targets =
        vec![" foo", "bar ", "baz ", " qux", "quux ", " quuz", " corge", "grault "];
    let expected_links: Vec<TwineLink> = (1 as usize..9)
        .map(|row| {
            TwineLink::new(
                expected_targets[row - 1].to_string(),
                context.subcontext(SubContextRange::between(
                    Position::rel(row, 1),
                    Position::rel(row, expected_lens[row - 1]),
                )),
            )
        })
        .collect();
    assert_eq!(content.get_links(), &expected_links);
}

#[test]
fn pipe_target_after_last_pipe() {
    let input = "[[a|b|c]]".to_string();
    let out = TwineContent::parse(FullContext::from(None, input));
    let (res, _) = out.take();
    let content = res.ok().unwrap();
    assert_eq!(content.get_links()[0].target, "c");
}
