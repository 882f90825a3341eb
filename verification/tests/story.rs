use tweep::FullContext;
use tweep::PassageContent;
use tweep::Position;
use tweep::Story;
use tweep::StoryPassages;
use tweep::SubContextRange;
use tweep::Warning;
use tweep::WarningType;

#[test]
fn story_a_test() {
    let input = ":: A passage\nThis\nThat\nThe Other\n\n\n:: Another passage\nFoo\nBar\nBaz\n\n\n:: StoryTitle\nTest Story\n\n\n"
        .to_string();
    let out = Story::from_string(input);
    assert_eq!(out.has_warnings(), false);
    let (res, _) = out.take();
    assert_eq!(res.is_ok(), true);
    let story = res.ok().unwrap();
    assert_eq!(story.get_start_passage_name(), None);
    assert_eq!(story.title.is_some(), true);
    let title = story.title.unwrap();
    assert_eq!(title, "Test Story");
}

#[test]
fn warning_offsets() {
    let input = ":: A passage\nThis\nThat\nThe Other\n\n\n:: A\\[nother passage\nFoo\nBar\nBaz\n\n\n:: StoryTitle\nTest Story\n\n\n"
        .to_string();
    let out = Story::from_string(input.clone());
    assert_eq!(out.has_warnings(), true);
    let (res, warnings) = out.take();
    assert_eq!(res.is_ok(), true);
    let context = FullContext::from(None, input);
    assert_eq!(
        warnings[0],
        Warning::new(
            WarningType::EscapedOpenSquare,
            Some(context.subcontext(SubContextRange::between(
                Position::rel(7, 5),
                Position::rel(7, 6)
            ))),
        )
    );
}

#[test]
fn story_passages_a_test() {
    let input = ":: A passage\nThis\nThat\nThe Other\n\n\n:: Another passage\nFoo\nBar\nBaz\n\n\n:: StoryTitle\nTest Story\n\n\n"
        .to_string();
    let out = StoryPassages::from_string(input);
    assert_eq!(out.has_warnings(), false);
    let (res, _) = out.take();
    assert_eq!(res.is_ok(), true);
    let story = res.ok().unwrap();
    assert_eq!(story.title.is_some(), true);
    let title_content = story.title.unwrap().content;
    if let PassageContent::StoryTitle(title) = title_content {
        assert_eq!(title.title, "Test Story");
    } else {
        panic!("Expected StoryTitle");
    }
}

#[test]
fn story_passages_warning_offsets() {
    let input = ":: A passage\nThis\nThat\nThe Other\n\n\n:: A\\[nother passage\nFoo\nBar\nBaz\n\n\n:: StoryTitle\nTest Story\n\n\n"
        .to_string();
    let context = FullContext::from(None, input.clone());
    let out = StoryPassages::from_string(input);
    assert_eq!(out.has_warnings(), true);
    let (res, warnings) = out.take();
    assert_eq!(res.is_ok(), true);
    assert_eq!(
        warnings[0],
        Warning::new(
            WarningType::EscapedOpenSquare,
            Some(context.subcontext(SubContextRange::between(
                Position::rel(7, 5),
                Position::rel(7, 6)
            ))),
        )
    );
}

#[test]
fn duplicate_story_data() {
    let input = ":: A passage\nblah whatever\n\n:: StoryData\n{\n\"ifid\": \"ABC\"\n}\n\n:: StoryTitle\nTest Story\n\n:: Start\nLink to [[A passage]]\n\n:: StoryData\n{\n\"ifid\": \"DEF\"\n}\n"
        .to_string();
    let context = FullContext::from(None, input);
    let out = StoryPassages::from_context(context.clone());
    assert_eq!(out.has_warnings(), true);
    let (res, warnings) = out.take();
    assert_eq!(res.is_ok(), true);
    let story = res.ok().unwrap();
    assert_eq!(warnings.len(), 1);
    assert_eq!(
        warnings[0],
        Warning::new(
            WarningType::DuplicateStoryData,
            Some(context.subcontext(SubContextRange::between(
                Position::rel(15, 1),
                Position::abs(18, 1)
            ))),
        )
        .with_referent(story.data.as_ref().unwrap().context.clone())
    );

    assert_eq!(
        story
            .data
            .and_then(|passage| {
                if let PassageContent::StoryData(data) = passage.content {
                    data
                } else {
                    None
                }
            })
            .map(|data| data.ifid),
        Some("ABC".to_string())
    );
}

#[test]
fn duplicate_story_title() {
    let input = ":: A passage\nblah whatever\n\n:: StoryTitle\nTest Story\n\n:: StoryData\n{\n\"ifid\": \"ABC\"\n}\n\n:: Start\nLink to [[A passage]]\n\n:: StoryTitle\nDiscarded Duplicate Title\n"
        .to_string();
    let context = FullContext::from(None, input);
    let out = StoryPassages::from_context(context.clone());
    assert_eq!(out.has_warnings(), true);
    let (res, warnings) = out.take();
    assert_eq!(res.is_ok(), true);
    let story = res.ok().unwrap();
    assert_eq!(warnings.len(), 1);
    assert_eq!(
        warnings[0],
        Warning::new(
            WarningType::DuplicateStoryTitle,
            Some(context.subcontext(SubContextRange::between(
                Position::rel(15, 1),
                Position::abs(16, 25)
            ))),
        )
        .with_referent(story.title.as_ref().unwrap().context.clone())
    );
    assert_eq!(story.title.is_some(), true);
    let title_content = story.title.unwrap().content;
    if let PassageContent::StoryTitle(title) = title_content {
        assert_eq!(title.title, "Test Story");
    } else {
        panic!("Expected StoryTitle");
    }
}

#[test]
fn dead_link() {
    let input = ":: Start\nThis passage links to [[Another passage]]\n\n:: Another passage\nThis has dead link to [[Dead link]]\n\n:: StoryTitle\nTest Story\n\n:: StoryData\n{\n\"ifid\": \"abc\"\n}\n"
        .to_string();
    let context = FullContext::from(None, input);
    let out = StoryPassages::from_context(context.clone());
    let (res, mut warnings) = out.take();
    assert_eq!(res.is_ok(), true);
    let story = res.ok().unwrap();
    let mut check_warnings = story.check();
    warnings.append(&mut check_warnings);
    let expected = vec![Warning::new(
        WarningType::DeadLink("Dead link".to_string()),
        Some(context.subcontext(SubContextRange::between(
            Position::rel(5, 23),
            Position::rel(5, 35),
        ))),
    )];
    assert_eq!(warnings, expected);
}

#[test]
fn alt_start() {
    let input = ":: Alt Start\nThis passage links to [[Another passage]]\n\n:: Another passage\nThis links back to [[Alt Start]]\n\n:: StoryTitle\nTest Story\n\n:: StoryData\n{\n\"ifid\": \"abc\",\n\"start\": \"Alt Start\"\n}\n"
        .to_string();
    let out = StoryPassages::from_string(input);
    let (res, mut warnings) = out.take();
    assert_eq!(res.is_ok(), true);
    let story = res.ok().unwrap();
    let mut check_warnings = story.check();
    warnings.append(&mut check_warnings);
    assert!(warnings.is_empty());
    assert_eq!(story.get_start_passage_name(), Some("Alt Start"));
}

#[test]
fn empty_passage() {
    let input = ":: Snoopy [dog peanuts]\nSnoopy is a dog in the comic Peanuts.\n\n::Blah\n\n:: Foo[bar]\n\n:: Charlie Brown [person peanuts] {\"position\":\"600,400\",\"size\":\"100,200\"}\nCharlie Brown is a person in the comic Peanuts\n\n:: Styling [stylesheet]\nbody {font-size: 1.5em;}\n\n:: StoryData\n{\n    \"ifid\": \"2B68ECD6-348F-4CF5-96F8-549A512A8128\",\n    \"format\": \"Harlowe\",\n    \"formatVersion\": \"2.1.0\",\n    \"zoom\": 100\n}"
        .to_string();
    let context = FullContext::from(None, input);
    let out = StoryPassages::parse(context);
    assert_eq!(out.has_warnings(), false);
}

#[test]
fn dead_start() {
    let input = ":: Alt Start\nThis passage links to [[Another passage]]\n\n:: Another passage\nThis links back to [[Alt Start]]\n\n:: StoryTitle\nTest Story\n\n:: StoryData\n{\n\"ifid\": \"abc\",\n\"start\": \"Alternate Start\"\n}\n"
        .to_string();
    let context = FullContext::from(None, input);
    let out = StoryPassages::from_context(context.clone());
    let (res, mut warnings) = out.take();
    assert_eq!(res.is_ok(), true);
    let story = res.ok().unwrap();
    let mut check_warnings = story.check();
    warnings.append(&mut check_warnings);
    assert_eq!(
        warnings,
        vec![Warning::new(
            WarningType::DeadStartPassage("Alternate Start".to_string()),
            Some(context.subcontext(SubContextRange::between(
                Position::rel(10, 1),
                Position::abs(14, 1)
            ))),
        )]
    );
    assert_eq!(story.get_start_passage_name(), Some("Alternate Start"));
}

#[test]
fn missing_title() {
    let input = ":: Start\nblah blah\n\n::StoryData\n{\"ifid\": \"ABC\"}".to_string();
    let out = StoryPassages::from_string(input);
    let (res, mut warnings) = out.take();
    assert_eq!(res.is_ok(), true);
    let story = res.ok().unwrap();
    let mut check_warnings = story.check();
    warnings.append(&mut check_warnings);
    assert_eq!(warnings, vec![Warning::new(WarningType::MissingStoryTitle, None)]);
    assert_eq!(story.get_start_passage_name(), Some("Start"));
}

#[test]
fn missing_start() {
    let input = ":: Alt Start\nThis passage links to [[Another passage]]\n\n:: Another passage\nThis links back to [[Alt Start]]\n\n:: StoryTitle\nTest Story\n\n:: StoryData\n{\n\"ifid\": \"abc\"\n}\n"
        .to_string();
    let out = StoryPassages::from_string(input);
    let (res, mut warnings) = out.take();
    assert_eq!(res.is_ok(), true);
    let story = res.ok().unwrap();
    let mut check_warnings = story.check();
    warnings.append(&mut check_warnings);
    assert_eq!(warnings, vec![Warning::new(WarningType::MissingStartPassage, None)]);
    assert_eq!(story.get_start_passage_name(), None);
}

#[test]
fn from_string_error() {
    let input = "".to_string();
    let out = StoryPassages::from_string(input);
    assert!(out.is_err());
}

#[test]
fn duplicate_passage_keeps_first() {
    let input = ":: A\nfirst\n\n:: A\nsecond\n".to_string();
    let out = StoryPassages::from_string(input);
    let (res, warnings) = out.take();
    assert!(res.is_ok());
    let story = res.ok().unwrap();
    assert_eq!(warnings.len(), 1);
    match &warnings[0].kind {
        WarningType::DuplicatePassage(name) => assert_eq!(name, "A"),
        _ => panic!("expected a duplicate-passage warning"),
    }
    let kept = story.passages.get("A").expect("passage A");
    if let PassageContent::Normal(tc) = &kept.content {
        assert_eq!(tc.content, "first\n");
    } else {
        panic!("Expected Normal content");
    }
    assert_eq!(warnings[0].referent, Some(kept.context.clone()));
}

#[test]
fn merge_keeps_first_story_data() {
    let one = ":: StoryData\n{\n\"ifid\": \"ABC\"\n}\n\n:: One\nbody one\n".to_string();
    let two = ":: StoryData\n{\n\"ifid\": \"DEF\"\n}\n\n:: Two\nbody two\n".to_string();
    let (res1, _) = StoryPassages::from_string(one).take();
    let (res2, _) = StoryPassages::from_string(two).take();
    let mut first = res1.ok().unwrap();
    let second = res2.ok().unwrap();
    let kept_context = first.data.as_ref().unwrap().context.clone();
    let warnings = first.merge_from(second);
    assert_eq!(warnings.len(), 1);
    assert_eq!(warnings[0].kind, WarningType::DuplicateStoryData);
    assert_eq!(warnings[0].referent, Some(kept_context));
    if let PassageContent::StoryData(Some(d)) = &first.data.as_ref().unwrap().content {
        assert_eq!(d.ifid, "ABC");
    } else {
        panic!("Expected StoryData");
    }
    assert!(first.passages.contains_key("One"));
    assert!(first.passages.contains_key("Two"));
}

#[test]
fn start_set_to_missing_passage() {
    let input = ":: Somewhere\nbody\n\n:: StoryData\n{\n\"ifid\": \"abc\",\n\"start\": \"Missing\"\n}\n"
        .to_string();
    let out = StoryPassages::from_string(input);
    let (res, _) = out.take();
    let story = res.ok().unwrap();
    let warnings = story.check();
    assert_eq!(warnings.len(), 2);
    assert_eq!(warnings[0].kind, WarningType::MissingStoryTitle);
    assert_eq!(warnings[1].kind, WarningType::DeadStartPassage("Missing".to_string()));
    assert_eq!(story.get_start_passage_name(), Some("Missing"));
}

#[test]
fn code_map_registers_files() {
    let one = FullContext::from(Some("one.tw".to_string()), ":: One\nbody\n".to_string());
    let two = FullContext::from(Some("two.twee".to_string()), ":: Two\nbody\n".to_string());
    let (res1, _) = StoryPassages::from_context(one).take();
    let (res2, _) = StoryPassages::from_context(two).take();
    let mut first = res1.ok().unwrap();
    let second = res2.ok().unwrap();
    assert_eq!(first.code_map.lookup_name(0), Some("one.tw"));
    assert_eq!(first.code_map.lookup_id("one.tw".to_string()), Some(0));
    assert!(first.code_map.get_context(0).is_some());
    let _ = first.merge_from(second);
    assert!(first.code_map.lookup_id("one.tw".to_string()).is_some());
    assert!(first.code_map.lookup_id("two.twee".to_string()).is_some());
}

#[test]
fn renumbered_pids_are_dense() {
    let input = ":: A\none\n\n:: B\ntwo\n\n:: C\nthree\n".to_string();
    let out = StoryPassages::from_string(input);
    let (res, _) = out.take();
    let story = res.ok().unwrap();
    let mut pids: Vec<usize> = Vec::new();
    for name in ["A", "B", "C"] {
        if let PassageContent::Normal(tc) = &story.passages.get(name).unwrap().content {
            pids.push(tc.pid);
        }
    }
    pids.sort();
    assert_eq!(pids, vec![1, 2, 3]);
}
