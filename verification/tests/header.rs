use tweep::Error;
use tweep::ErrorType;
use tweep::FullContext;
use tweep::PassageHeader;
use tweep::Position;
use tweep::SubContextRange;
use tweep::WarningType;

#[test]
fn missing_sigil() {
    let context = FullContext::from(None, "An overgrown path".to_string());
    let expected = context.clone();
    let out = PassageHeader::parse(context);
    let (res, _) = out.take();
    assert_eq!(res.is_err(), true);
    assert_eq!(res.err().unwrap().errors[0], Error::new(ErrorType::MissingSigil, Some(expected)));
}

#[test]
fn leading_whitespace() {
    let context = FullContext::from(None, " :: An overgrown path".to_string());
    let expected = context.clone();
    let out = PassageHeader::parse(context);
    let (res, _) = out.take();
    assert_eq!(res.is_err(), true);
    assert_eq!(
        res.err().unwrap().errors[0],
        Error::new(ErrorType::LeadingWhitespace, Some(expected))
    );
}

#[test]
fn empty_name() {
    let context = FullContext::from(None, ":: [ tag1 tag2 ]".to_string());
    let expected = context.subcontext(SubContextRange::starting_at(Position::rel(1, 3)));
    let out = PassageHeader::parse(context);
    let (res, _) = out.take();
    assert_eq!(res.is_err(), true);
    let errors = res.err().unwrap().errors;
    assert_eq!(errors.len(), 1);
    assert_eq!(errors[0], Error::new(ErrorType::EmptyName, Some(expected)));

    let context = FullContext::from(None, ":: \t".to_string());
    let expected = context.subcontext(SubContextRange::starting_at(Position::rel(1, 3)));
    let out = PassageHeader::parse(context);
    let (res, _) = out.take();
    assert_eq!(res.is_err(), true);
    assert_eq!(res.err().unwrap().errors[0], Error::new(ErrorType::EmptyName, Some(expected)));
}

#[test]
fn metadata_before_tags() {
    let context =
        FullContext::from(None, ":: An overgrown path { \"size\": \"5,5\" } [ tag ]".to_string());
    let expected = context.subcontext(SubContextRange::starting_at(Position::rel(1, 22)));
    let out = PassageHeader::parse(context);
    let (res, _) = out.take();
    assert_eq!(res.is_err(), true);
    assert_eq!(
        res.err().unwrap().errors[0],
        Error::new(ErrorType::MetadataBeforeTags, Some(expected))
    );
}

#[test]
fn unescaped_chars() {
    for (c, e) in [
        ("{", ErrorType::UnescapedOpenCurly),
        ("}", ErrorType::UnescapedCloseCurly),
        ("[", ErrorType::UnescapedOpenSquare),
        ("]", ErrorType::UnescapedCloseSquare),
    ] {
        let context = FullContext::from(
            None,
            format!(":: {}An overgrown path [tag] {{ \"size\": \"5,5\" }}", c),
        );
        let sub = context.clone();

        let out = PassageHeader::parse(context);
        let (res, _) = out.take();
        assert_eq!(res.is_err(), true);
        let errors = res.err().unwrap().errors;
        assert!(errors.iter().any(|a| {
            let sub =
                sub.subcontext(SubContextRange::between(Position::rel(1, 4), Position::rel(1, 4)));
            *a == Error::new(e.clone(), Some(sub))
        }));

        let input = format!(":: {}\\{}An overgrown path [tag] {{ \"size\": \"5,5\" }}", c, c);
        let context = FullContext::from(None, input.clone());
        let sub = context.clone();
        let out = PassageHeader::parse(context);
        let (res, _) = out.take();
        assert_eq!(res.is_err(), true);
        assert!(res.err().unwrap().errors.iter().any(|a| {
            let sub =
                sub.subcontext(SubContextRange::between(Position::rel(1, 4), Position::rel(1, 4)));
            *a == Error::new(e.clone(), Some(sub))
        }));

        let input = format!(":: \\{}{}An overgrown path [tag] {{ \"size\": \"5,5\" }}", c, c);
        let context = FullContext::from(None, input.clone());
        let sub = context.clone();
        let out = PassageHeader::parse(context);
        let (res, _) = out.take();
        assert_eq!(res.is_err(), true);
        assert!(res.err().unwrap().errors.iter().any(|a| {
            let sub =
                sub.subcontext(SubContextRange::between(Position::rel(1, 6), Position::rel(1, 6)));
            *a == Error::new(e.clone(), Some(sub))
        }));
    }
}

#[test]
fn unclosed_tags() {
    let context = FullContext::from(None, ":: An overgrown path [ tag1 tag2".to_string());
    let expected = context.subcontext(SubContextRange::starting_at(Position::rel(1, 22)));
    let out = PassageHeader::parse(context);
    let (res, _) = out.take();
    assert_eq!(res.is_err(), true);
    assert_eq!(
        res.err().unwrap().errors[0],
        Error::new(ErrorType::UnclosedTagBlock, Some(expected))
    );
}

#[test]
fn unclosed_metadata() {
    let context = FullContext::from(None, ":: An overgrown path { \"foo\": \"bar\"".to_string());
    let out = PassageHeader::parse(context);
    let (res, warnings) = out.take();
    assert_eq!(res.is_err(), false);
    assert!(matches!(warnings[0].kind, WarningType::JsonError(_)));
}

#[test]
fn tags() {
    let context =
        FullContext::from(None, ":: An overgrown path [tag1 tag2 tag3   tag4   ]".to_string());
    let out = PassageHeader::parse(context);
    assert_eq!(out.has_warnings(), false);
    let (res, _) = out.take();
    assert_eq!(res.is_ok(), true);
    let ph = res.ok().unwrap();
    assert_eq!(ph.tags.len(), 4);
    assert_eq!(ph.tags, vec!["tag1", "tag2", "tag3", "tag4"]);
    assert_eq!(ph.has_tag("tag1"), true);
    assert_eq!(ph.has_tag("tag5"), false);

    let context = FullContext::from(None, ":: An overgrown path []".to_string());
    let out = PassageHeader::parse(context);
    assert_eq!(out.has_warnings(), false);
    let (res, _) = out.take();
    assert_eq!(res.is_ok(), true);
    let ph = res.ok().unwrap();
    assert_eq!(ph.tags.len(), 0);
    assert_eq!(ph.has_tag("tag1"), false);

    let context =
        FullContext::from(None, ":: An overgrown path [              \t          ]".to_string());
    let out = PassageHeader::parse(context);
    assert_eq!(out.has_warnings(), false);
    let (res, _) = out.take();
    assert_eq!(res.is_ok(), true);
    let ph = res.ok().unwrap();
    assert_eq!(ph.tags.len(), 0);
}

#[test]
fn metadata() {
    let context = FullContext::from(None, ":: Title {\"foo\":\"bar\"}".to_string());
    let out = PassageHeader::parse(context);
    assert_eq!(out.has_warnings(), false);
    let (res, _) = out.take();
    assert_eq!(res.is_ok(), true);
    let ph = res.ok().unwrap();
    assert_eq!(ph.metadata.get("size").unwrap().text, "100,100");
    assert_eq!(ph.metadata.get("position").unwrap().text, "10,10");
    assert_eq!(ph.metadata.get("foo").unwrap().text, "bar");

    let context = FullContext::from(None, ":: Title {\"size\":\"23,23\"}".to_string());
    let out = PassageHeader::parse(context);
    assert_eq!(out.has_warnings(), false);
    let (res, _) = out.take();
    assert_eq!(res.is_ok(), true);
    let ph = res.ok().unwrap();
    assert_eq!(ph.metadata.get("size").unwrap().text, "23,23");
    assert_eq!(ph.metadata.get("position").unwrap().text, "10,10");

    let context = FullContext::from(None, ":: Title { \"position\":\"5,5\" }".to_string());
    let out = PassageHeader::parse(context);
    assert_eq!(out.has_warnings(), false);
    let (res, _) = out.take();
    assert_eq!(res.is_ok(), true);
    let ph = res.ok().unwrap();
    assert_eq!(ph.metadata.get("size").unwrap().text, "100,100");
    assert_eq!(ph.metadata.get("position").unwrap().text, "5,5");

    let context =
        FullContext::from(None, ":: Title {\"size\":\"23,23\", \"position\":\"5,5\"}".to_string());
    let out = PassageHeader::parse(context);
    assert_eq!(out.has_warnings(), false);
    let (res, _) = out.take();
    assert_eq!(res.is_ok(), true);
    let ph = res.ok().unwrap();
    assert_eq!(ph.metadata.get("size").unwrap().text, "23,23");
    assert_eq!(ph.metadata.get("position").unwrap().text, "5,5");
}

#[test]
fn multilevel_metadata() {
    let context =
        FullContext::from(None, ":: Title {\"size\": \"23,23\", \"foo\": { \"bar\": 5 } }".to_string());
    let out = PassageHeader::parse(context);
    assert_eq!(out.has_warnings(), false);
    let (res, _) = out.take();
    assert_eq!(res.is_ok(), true);
    let ph = res.ok().unwrap();
    assert_eq!(ph.metadata.get("size").unwrap().text, "23,23");
    assert_eq!(ph.metadata.get("position").unwrap().text, "10,10");
    let foo = ph.metadata.get("foo").unwrap();
    assert!(!foo.is_string);
    assert_eq!(foo.text, "{\"bar\":5}");
}

#[test]
fn malformed_metadata() {
    let context = FullContext::from(None, ":: Title {\"size\":\"23, }".to_string());
    let out = PassageHeader::parse(context);
    let (res, warnings) = out.take();
    assert_eq!(res.is_ok(), true);
    let ph = res.ok().unwrap();
    assert_eq!(ph.metadata.get("size").unwrap().text, "100,100");
    assert_eq!(ph.metadata.get("position").unwrap().text, "10,10");

    assert_eq!(warnings.len(), 1);
    assert!(matches!(warnings[0].kind, WarningType::JsonError(_)));
}

#[test]
fn escaped_chars() {
    let context = FullContext::from(None, ":: An over\\[grown\\} pa\\th[ tag ]".to_string());
    let out = PassageHeader::parse(context);
    let (res, warnings) = out.take();
    assert_eq!(res.is_ok(), true);
    let ph = res.ok().unwrap();
    assert_eq!(ph.name, "An over[grown} path");
    assert_eq!(ph.tags.len(), 1);
    assert_eq!(warnings.len(), 2);
    assert_eq!(warnings[1].kind, WarningType::EscapedOpenSquare);
    assert_eq!(warnings[0].kind, WarningType::EscapedCloseCurly);

    let context = FullContext::from(None, ":: An over\\{grown\\] pa\\th[ tag ]".to_string());
    let out = PassageHeader::parse(context);
    let (res, warnings) = out.take();
    assert_eq!(res.is_ok(), true);
    let ph = res.ok().unwrap();
    assert_eq!(ph.name, "An over{grown] path");
    assert_eq!(ph.tags.len(), 1);
    assert_eq!(warnings.len(), 2);
    assert_eq!(warnings[0].kind, WarningType::EscapedOpenCurly);
    assert_eq!(warnings[1].kind, WarningType::EscapedCloseSquare);
}

#[test]
fn tags_and_metadata() {
    let context =
        FullContext::from(None, ":: An overgrown path [ tag ] { \"size\": \"5,5\" }".to_string());
    let out = PassageHeader::parse(context);
    assert_eq!(out.has_warnings(), false);
    let (res, _) = out.take();
    assert_eq!(res.is_ok(), true);
    let ph = res.ok().unwrap();
    assert_eq!(ph.name, "An overgrown path");
    assert_eq!(ph.tags.len(), 1);
    assert_eq!(ph.tags, vec!["tag"]);
    assert_eq!(ph.metadata.get("size").unwrap().text, "5,5");
    assert_eq!(ph.metadata.get("position").unwrap().text, "10,10");
}

#[test]
fn metadata_with_array() {
    let context = FullContext::from(
        None,
        ":: An overgrown path { \"size\": \"5,5\", \"foo\":[2,3] }".to_string(),
    );
    let out = PassageHeader::parse(context);
    assert_eq!(out.has_warnings(), false);
    let (res, _) = out.take();
    assert_eq!(res.is_ok(), true);
    let ph = res.ok().unwrap();
    assert_eq!(ph.name, "An overgrown path");
    assert_eq!(ph.metadata.get("size").unwrap().text, "5,5");
    assert_eq!(ph.metadata.get("position").unwrap().text, "10,10");
    assert_eq!(ph.metadata.get("foo").unwrap().text, "[2,3]");
    assert_eq!(ph.tags.len(), 0);
}

#[test]
fn empty_tags() {
    let context = FullContext::from(None, ":: An overgrown path []".to_string());
    let out = PassageHeader::parse(context);
    assert_eq!(out.has_warnings(), false);
    let (res, _) = out.take();
    assert_eq!(res.is_ok(), true);
    let ph = res.ok().unwrap();
    assert_eq!(ph.tags.len(), 0);
}

#[test]
fn escape_without_closing_brace() {
    let context = FullContext::from(None, ":: A\\{B".to_string());
    let out = PassageHeader::parse(context);
    let (res, warnings) = out.take();
    assert_eq!(res.is_ok(), true);
    let ph = res.ok().unwrap();
    assert_eq!(ph.name, "A{B");
    assert_eq!(warnings.len(), 1);
    assert_eq!(warnings[0].kind, WarningType::EscapedOpenCurly);
}
