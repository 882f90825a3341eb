use tweep::positions::Position;
use tweep::positions::Positional;
use tweep::FullContext;
use tweep::Output;
use tweep::SubContextRange;
use tweep::Warning;
use tweep::WarningType;

#[test]
fn output_basic() {
    let out: Output<u8> = Output::new(5);
    assert!(!out.has_warnings());
    assert_eq!(out.get_output(), &5);
    assert_eq!(out.get_warnings(), &Vec::new());
    let (x, w) = out.take();
    assert_eq!(x, 5);
    assert_eq!(w, Vec::new());
}

#[test]
fn basic_with_warnings() {
    let context = FullContext::from(None, "".to_string());
    let warnings = vec![
        Warning::new(WarningType::DuplicateStoryData, Some(context.clone())),
        Warning::new(WarningType::DuplicateStoryTitle, Some(context.clone())),
    ];
    let expected = vec![
        Warning::new(WarningType::DuplicateStoryData, Some(context.clone())),
        Warning::new(WarningType::DuplicateStoryTitle, Some(context.clone())),
    ];
    let out: Output<u8> = Output::new(5).with_warnings(warnings);
    assert!(out.has_warnings());
    assert_eq!(out.get_output(), &5);
    assert_eq!(out.get_warnings(), &expected);
    let (x, w) = out.take();
    assert_eq!(x, 5);
    assert_eq!(w, expected);
}

#[test]
fn output_result() {
    let ok_out: Output<Result<u8, String>> = Output::new(Ok(5));
    let err_out: Output<Result<String, u8>> = Output::new(Err(23));

    assert!(ok_out.is_ok());
    assert_eq!(ok_out.get_output(), &Ok(5));

    assert!(err_out.is_err());
    assert_eq!(err_out.get_output(), &Err(23));

    let x: Output<Result<u32, u32>> = ok_out.into_ok();
    assert!(x.is_ok());
    assert_eq!(x.get_output(), &Ok(5));

    let y: Output<Result<u64, u64>> = x.into_result();
    assert!(y.is_ok());
    assert_eq!(y.get_output(), &Ok(5));

    let x: Output<Result<u32, u32>> = err_out.into_err();
    assert!(x.is_err());
    assert_eq!(x.get_output(), &Err(23));

    let y: Output<Result<u64, u64>> = x.into_result();
    assert!(y.is_err());
    assert_eq!(y.get_output(), &Err(23));
}

#[test]
fn mut_output_access() {
    let mut out: Output<usize> = Output::new(23);
    *out.mut_output() = 5;
    assert_eq!(*out.get_output(), 5);
}

struct PositionalU8 {
    pub number: u8,
    pub position: Position,
}

impl PositionalU8 {
    pub fn new(number: u8) -> Self {
        PositionalU8 { number, position: Position::StoryLevel }
    }
}

impl Positional for PositionalU8 {
    fn get_position(&self) -> &Position {
        &self.position
    }

    fn set_row(&mut self, row: usize) {
        self.position.set_row(row);
    }

    fn set_column(&mut self, col: usize) {
        self.position.set_column(col);
    }

    fn offset_row(&mut self, offset: usize) {
        self.position.offset_row(offset);
    }

    fn offset_column(&mut self, offset: usize) {
        self.position.offset_column(offset);
    }

    fn set_file(&mut self, file: String) {
        self.position.set_file(file);
    }
}

fn test_positions(warnings: &Vec<Warning>, position: &Position) {
    for w in warnings {
        assert_eq!(w.get_position(), position);
    }
}

#[test]
fn output_positional() {
    let context = FullContext::from(None, "".to_string());
    let warnings = vec![
        Warning::new(
            WarningType::DuplicateStoryData,
            Some(context.subcontext(SubContextRange::all())),
        ),
        Warning::new(
            WarningType::DuplicateStoryTitle,
            Some(context.subcontext(SubContextRange::all())),
        ),
    ];
    let expected = vec![
        Warning::new(
            WarningType::DuplicateStoryData,
            Some(context.subcontext(SubContextRange::all())),
        ),
        Warning::new(
            WarningType::DuplicateStoryTitle,
            Some(context.subcontext(SubContextRange::all())),
        ),
    ];
    let mut out: Output<PositionalU8> = Output::new(PositionalU8::new(5)).with_warnings(warnings);
    assert!(out.has_warnings());
    assert_eq!(out.get_output().number, 5);
    assert_eq!(out.get_warnings(), &expected);

    let mut expected_position = Position::StoryLevel;
    assert_eq!(out.get_output().get_position(), &expected_position);
    test_positions(out.get_warnings(), &expected_position);

    expected_position.set_column(2);
    out.set_column(2);
    assert_eq!(out.get_output().get_position(), &expected_position);
    test_positions(out.get_warnings(), &expected_position);

    expected_position.set_row(3);
    out.set_row(3);
    assert_eq!(out.get_output().get_position(), &expected_position);
    test_positions(out.get_warnings(), &expected_position);

    let file_name = "blah.ext".to_string();
    expected_position.set_file(file_name.clone());
    out.set_file(file_name);
    assert_eq!(out.get_output().get_position(), &expected_position);
    test_positions(out.get_warnings(), &expected_position);

    expected_position.offset_column(3);
    out.offset_column(3);
    assert_eq!(out.get_output().get_position(), &expected_position);
    test_positions(out.get_warnings(), &expected_position);

    expected_position.offset_row(20);
    out.offset_row(20);
    assert_eq!(out.get_output().get_position(), &expected_position);
    test_positions(out.get_warnings(), &expected_position);
}
