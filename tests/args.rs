use pngme::args::EncodeArgs;

#[test]
fn output_goes_to_output_file_when_given() {
    let args = EncodeArgs {
        file_path: String::from("img.png"),
        chunk_type: String::from("ruSt"),
        message: String::from("hello"),
        output_file: Some(String::from("out.png")),
    };
    assert_eq!(args.output_path(), "out.png");
}

#[test]
fn output_overwrites_input_without_output_file() {
    let args = EncodeArgs {
        file_path: String::from("img.png"),
        chunk_type: String::from("ruSt"),
        message: String::from("hello"),
        output_file: None,
    };
    assert_eq!(args.output_path(), "img.png");
}
