use tweep::FullContext;
use tweep::Passage;
use tweep::PassageContent;
use tweep::ScriptContent;
use tweep::StoryData;
use tweep::StoryTitle;
use tweep::StylesheetContent;
use tweep::WarningType;

fn story_title_subtest(input: String, expected_title: &str) {
    let context = FullContext::from(None, input);
    let out = Passage::parse(context);
    assert_eq!(out.has_warnings(), false);
    let (res, _) = out.take();
    assert_eq!(res.is_ok(), true);
    let passage = res.ok().unwrap();
    let content = passage.content;
    let expected = if let PassageContent::StoryTitle(story_title) = content {
        assert_eq!(story_title.title, expected_title);
        true
    } else {
        false
    };
    assert_eq!(expected, true);
}

#[test]
fn passage_one_line_story_title() {
    let input = ":: StoryTitle\nOne line story title\n\n".to_string();
    story_title_subtest(input, "One line story title");
}

#[test]
fn passage_multi_line_story_title() {
    let input = "::StoryTitle\nMulti\nLine\nTitle".to_string();
    story_title_subtest(input, "Multi\nLine\nTitle")
}

#[test]
fn passage_script_passage() {
    let input = ":: Script Passage [script]\nfoo\nbar".to_string();
    let context = FullContext::from(None, input);
    let out = Passage::parse(context);
    assert_eq!(out.has_warnings(), false);
    let (res, _) = out.take();
    assert_eq!(res.is_ok(), true);
    let passage = res.ok().unwrap();
    assert_eq!(passage.tags(), &vec!["script".to_string()]);
    let content = passage.content;
    let expected = if let PassageContent::Script(script) = content {
        assert_eq!(passage.header.name, "Script Passage");
        assert_eq!(script.content, "foo\nbar");
        true
    } else {
        false
    };
    assert_eq!(expected, true);
}

#[test]
fn passage_stylesheet_passage() {
    let input = ":: Style Passage [stylesheet]\nfoo\nbar".to_string();
    let context = FullContext::from(None, input);
    let out = Passage::parse(context);
    assert_eq!(out.has_warnings(), false);
    let (res, _) = out.take();
    assert_eq!(res.is_ok(), true);
    let passage = res.ok().unwrap();
    assert_eq!(passage.metadata().get("position").unwrap().text, "10,10");
    assert_eq!(passage.metadata().get("size").unwrap().text, "100,100");
    let content = passage.content;
    let expected = if let PassageContent::Stylesheet(stylesheet) = content {
        assert_eq!(passage.header.name, "Style Passage");
        assert_eq!(stylesheet.content, "foo\nbar");
        true
    } else {
        false
    };
    assert_eq!(expected, true);
}

#[test]
fn passage_a_test() {
    let input_string = ":: An overgrown path[tag  tag2 ]\nThis\nThat\n\n\n\n\n".to_string();
    let context = FullContext::from(None, input_string);
    let out = Passage::parse(context);
    assert_eq!(out.has_warnings(), false);
    let (res, _) = out.take();
    assert_eq!(res.is_ok(), true);
    let passage = res.ok().unwrap();
    let content = passage.content;
    let expected = if let PassageContent::Normal(normal) = content {
        assert_eq!(passage.header.name, "An overgrown path");
        assert_eq!(normal.content, "This\nThat\n");
        true
    } else {
        false
    };
    assert_eq!(expected, true);
}

#[test]
fn script_content_basic() {
    let input = "foo\nbar\nbaz".to_string();
    let out = ScriptContent::parse(FullContext::from(None, input.clone()));
    assert!(!out.has_warnings());
    let (res, _) = out.take();
    assert!(res.is_ok());
    let content = res.ok().unwrap();
    assert_eq!(content.content, input);
}

#[test]
fn story_title_basic() {
    let input = "foo\nbar\nbaz".to_string();
    let out = StoryTitle::parse(FullContext::from(None, input.clone()));
    assert!(!out.has_warnings());
    let (res, _) = out.take();
    assert!(res.is_ok());
    let content = res.ok().unwrap();
    assert_eq!(content.title, input);
}

#[test]
fn stylesheet_content_basic() {
    let input = "foo\nbar\nbaz".to_string();
    let out = StylesheetContent::parse(FullContext::from(None, input.clone()));
    assert!(!out.has_warnings());
    let (res, _) = out.take();
    assert!(res.is_ok());
    let content = res.ok().unwrap();
    assert_eq!(content.content, input);
}

#[test]
fn test_example() {
    let input = r#"{
	"ifid": "D674C58C-DEFA-4F70-B7A2-27742230C0FC",
	"format": "SugarCube",
	"format-version": "2.28.2",
	"start": "My Starting Passage",
	"tag-colors": {
		"bar": "green",
		"foo": "red",
		"qaz": "blue"
	},
	"zoom": 0.25
}
"#
    .to_string();
    let out = StoryData::parse(FullContext::from(None, input));
    assert!(!out.has_warnings());
    let (res, _) = out.take();
    assert!(res.is_ok());
    let data = res.ok().unwrap();
    let story_data = data.expect("expected story data");
    assert_eq!(story_data.ifid, "D674C58C-DEFA-4F70-B7A2-27742230C0FC");
    assert_eq!(story_data.format, Some("SugarCube".to_string()));
    assert_eq!(story_data.format_version, Some("2.28.2".to_string()));
    assert_eq!(story_data.start, Some("My Starting Passage".to_string()));
    assert_eq!(story_data.zoom, Some("0.25".to_string()));
    assert_eq!(story_data.zoom.as_deref().unwrap().parse::<f32>().unwrap(), 0.25);

    let tag_colors = story_data.tag_colors.expect("expected tag colors");
    let color_of = |tag: &str| {
        tag_colors
            .iter()
            .find(|(t, _)| t == tag)
            .map(|(_, c)| c.clone())
            .expect("expected tag color")
    };
    assert_eq!(color_of("bar"), "green");
    assert_eq!(color_of("foo"), "red");
    assert_eq!(color_of("qaz"), "blue");
}

#[test]
fn test_malformed() {
    let input = r#"{
	"ifid": "D674C58C-DEFA-4F70-B7A2-27742230C0FC",
	"format": "SugarCube",
	"format-version": "2.28.2",
	"start": "My Starting Passage",
	"tag-colors": {
"#
    .to_string();
    let out = StoryData::parse(FullContext::from(None, input));
    assert!(out.has_warnings());
    let (res, warnings) = out.take();
    assert!(res.is_ok());
    let data = res.ok().unwrap();
    assert!(data.is_none());
    assert_eq!(warnings.len(), 1);
    assert!(matches!(&warnings[0].kind, WarningType::JsonError(_)));
}

#[test]
fn story_data_missing_ifid() {
    let input = "{ \"format\": \"Harlowe\" }".to_string();
    let out = StoryData::parse(FullContext::from(None, input));
    let (res, warnings) = out.take();
    assert!(res.is_ok());
    assert!(res.ok().unwrap().is_none());
    assert_eq!(warnings.len(), 1);
    match &warnings[0].kind {
        WarningType::JsonError(m) => assert_eq!(m, "missing field `ifid`"),
        _ => panic!("expected a JSON warning"),
    }
}
