use pipelines::record::ParsedMessage;
use pipelines::registry::{Pipelines, PipelinesConfig};

fn feed(pipelines: &mut Pipelines, line: &str) {
    let msg = ParsedMessage::parse(line).expect("line should parse");
    pipelines.insert_message(msg);
}

#[test]
fn scenario_plain_ascii_then_close() {
    let mut pipelines = Pipelines::new(PipelinesConfig::default());
    feed(&mut pipelines, "1 0 0 hello 1");
    feed(&mut pipelines, "1 1 0 world -1");
    assert_eq!(pipelines.display(), "Pipeline:1\n\t0| hello\n\t1| world\n");
}

#[test]
fn closed_pipeline_ignores_every_later_record() {
    let mut pipelines = Pipelines::new(PipelinesConfig::default());
    feed(&mut pipelines, "1 0 0 hello 1");
    feed(&mut pipelines, "1 1 0 world -1");
    let before = pipelines.display();
    feed(&mut pipelines, "1 1 0 repeat 2");
    feed(&mut pipelines, "1 2 0 late -1");
    assert_eq!(pipelines.display(), before);
}

#[test]
fn scenario_hex_payloads() {
    let mut pipelines = Pipelines::new(PipelinesConfig::default());
    feed(&mut pipelines, "13 1 1 66616E63792031335F31 2");
    feed(&mut pipelines, "13 2 1 66616E63792074657874 -1");
    assert_eq!(
        pipelines.display(),
        "Pipeline:13\n\t1| fancy 13_1\n\t2| fancy text\n"
    );
}

#[test]
fn scenario_policy_disabled_accepts_out_of_sequence() {
    let mut pipelines = Pipelines::new(PipelinesConfig {
        discard_invalid_next_id: false,
    });
    feed(&mut pipelines, "1 0 0 a 1");
    feed(&mut pipelines, "1 5 0 b 2");
    assert_eq!(pipelines.display(), "Pipeline:1\n\t0| a\n\t5| b\n");
    // expected_next became 2: a record with id 2 is in sequence now
    feed(&mut pipelines, "1 2 0 c 3");
    assert_eq!(pipelines.display(), "Pipeline:1\n\t0| a\n\t2| c\n\t5| b\n");
}

#[test]
fn scenario_malformed_lines_create_nothing() {
    let mut pipelines = Pipelines::new(PipelinesConfig::default());
    assert!(ParsedMessage::parse("err").is_err());
    assert!(ParsedMessage::parse("12 8 m...").is_err());
    assert_eq!(pipelines.display(), "");
    // and an unrelated good line still works afterwards
    feed(&mut pipelines, "2 0 0 fine -1");
    assert_eq!(pipelines.display(), "Pipeline:2\n\t0| fine\n");
}

#[test]
fn discard_policy_drops_out_of_sequence() {
    let mut pipelines = Pipelines::new(PipelinesConfig {
        discard_invalid_next_id: true,
    });
    feed(&mut pipelines, "1 0 0 a 1");
    feed(&mut pipelines, "1 5 0 b 2");
    assert_eq!(pipelines.display(), "Pipeline:1\n\t0| a\n");
    // the expectation is still 1, so id 1 is accepted
    feed(&mut pipelines, "1 1 0 c -1");
    assert_eq!(pipelines.display(), "Pipeline:1\n\t0| a\n\t1| c\n");
}

#[test]
fn decode_failure_still_advances_chain() {
    let mut pipelines = Pipelines::new(PipelinesConfig {
        discard_invalid_next_id: true,
    });
    // invalid hex payload: no message stored, but expected_next becomes 1
    feed(&mut pipelines, "1 0 1 ZZ 1");
    assert_eq!(pipelines.display(), "Pipeline:1\n");
    feed(&mut pipelines, "1 1 0 ok -1");
    assert_eq!(pipelines.display(), "Pipeline:1\n\t1| ok\n");
    // the sentinel closed the pipeline
    feed(&mut pipelines, "1 2 0 late 3");
    assert_eq!(pipelines.display(), "Pipeline:1\n\t1| ok\n");
}

#[test]
fn pipelines_are_isolated() {
    let mut pipelines = Pipelines::new(PipelinesConfig::default());
    feed(&mut pipelines, "2 1 0 two_one 2");
    feed(&mut pipelines, "1 0 0 one_zero 1");
    let one_only = "Pipeline:1\n\t0| one_zero\n";
    let both = format!("{one_only}Pipeline:2\n\t1| two_one\n");
    assert_eq!(pipelines.display(), both);
    // a record for pipeline 2 leaves pipeline 1's block untouched
    feed(&mut pipelines, "2 2 0 two_two -1");
    assert_eq!(
        pipelines.display(),
        format!("{one_only}Pipeline:2\n\t1| two_one\n\t2| two_two\n")
    );
}

#[test]
fn messages_render_in_ascending_id_order() {
    let mut pipelines = Pipelines::new(PipelinesConfig::default());
    feed(&mut pipelines, "7 5 0 e 9");
    feed(&mut pipelines, "7 1 0 a 9");
    feed(&mut pipelines, "7 3 0 c 9");
    assert_eq!(pipelines.display(), "Pipeline:7\n\t1| a\n\t3| c\n\t5| e\n");
}

#[test]
fn equal_ids_keep_insertion_order() {
    let mut pipelines = Pipelines::new(PipelinesConfig::default());
    feed(&mut pipelines, "4 2 0 first 9");
    feed(&mut pipelines, "4 2 0 second 9");
    assert_eq!(pipelines.display(), "Pipeline:4\n\t2| first\n\t2| second\n");
}

#[test]
fn render_is_idempotent() {
    let mut pipelines = Pipelines::new(PipelinesConfig::default());
    feed(&mut pipelines, "3 1 0 message_31 2");
    feed(&mut pipelines, "9 0 1 4F4B 1");
    let first = pipelines.display();
    let second = pipelines.display();
    assert_eq!(first, second);
}

#[test]
fn three_digit_ids_render_in_decimal() {
    let mut pipelines = Pipelines::new(PipelinesConfig::default());
    feed(&mut pipelines, "255 200 0 x 201");
    feed(&mut pipelines, "100 0 0 y 1");
    feed(&mut pipelines, "10 7 0 z 8");
    assert_eq!(
        pipelines.display(),
        "Pipeline:10\n\t7| z\nPipeline:100\n\t0| y\nPipeline:255\n\t200| x\n"
    );
}

#[test]
fn empty_body_token_is_kept() {
    let mut pipelines = Pipelines::new(PipelinesConfig::default());
    // two adjacent spaces: the fourth token is the empty payload
    feed(&mut pipelines, "1 0 0  1");
    assert_eq!(pipelines.display(), "Pipeline:1\n\t0| \n");
}

#[test]
fn mixed_pipelines_reassembly() {
    let mut pipelines = Pipelines::new(PipelinesConfig::default());
    feed(&mut pipelines, "2 1 1 4F4B 5");
    feed(&mut pipelines, "1 0 0 some_text 1");
    feed(&mut pipelines, "1 1 0 another_text 3");
    feed(&mut pipelines, "2 5 1 4F4B -1");
    assert_eq!(
        pipelines.display(),
        "Pipeline:1\n\t0| some_text\n\t1| another_text\nPipeline:2\n\t1| OK\n\t5| OK\n"
    );
}

#[test]
fn full_stream_reassembly() {
    let lines = [
        "3 1 0 message_31 -1",
        "      1 0 0 message_10 1 This text should be ignored",
        "1 3 0 message_13 -1",
        "err",
        "12 8 m...",
        "1 1 0 message_11 2",
        "5 9 0 message_59 10",
        "2 0 0 message_20 2",
        "13 1 1 66616E63792031335F31 2",
        "13 2 1 66616E63792074657874 -1",
        "1 2 0 message_12 3",
        "2 2 0 message_22 -1",
        "1 0 0 message_10_2 1",
        "5 11 0 message_510_2 -1",
    ];
    let mut pipelines = Pipelines::new(PipelinesConfig {
        discard_invalid_next_id: false,
    });
    for line in lines {
        if let Ok(msg) = ParsedMessage::parse(line) {
            pipelines.insert_message(msg);
        }
    }
    let expected = "Pipeline:1\n\t3| message_13\n\
                    Pipeline:2\n\t0| message_20\n\t2| message_22\n\
                    Pipeline:3\n\t1| message_31\n\
                    Pipeline:5\n\t9| message_59\n\t11| message_510_2\n\
                    Pipeline:13\n\t1| fancy 13_1\n\t2| fancy text\n";
    assert_eq!(pipelines.display(), expected);
}

#[test]
fn trailing_tokens_are_ignored() {
    let mut pipelines = Pipelines::new(PipelinesConfig::default());
    feed(&mut pipelines, "1 0 0 hello 1 This text should be ignored");
    assert_eq!(pipelines.display(), "Pipeline:1\n\t0| hello\n");
}
