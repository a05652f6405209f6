use recipe_stats::calculator::StatsCalculator;
use recipe_stats::decoder::{ArrayFault, DecodeError, JsonFailure, StatsLoader};
use recipe_stats::record::{CustomPostcodeDeliveryTime, RecipeData};
use recipe_stats::window::DeliveryPattern;

const EXAMPLE: &str = r#"[{"postcode":"A","recipe":"Potato Soup","delivery":"10AM - 3PM"},{"postcode":"A","recipe":"Potato Soup","delivery":"11AM - 2PM"},{"postcode":"B","recipe":"Veggie Bowl","delivery":"1AM - 1PM"}]"#;

fn record(postcode: &str, recipe: &str, delivery: &str) -> RecipeData {
    RecipeData::new(postcode.to_string(), recipe.to_string(), delivery.to_string())
}

fn encode(records: &[RecipeData]) -> Vec<u8> {
    let mut elements = Vec::new();
    for r in records {
        let mut object = serde_json::Map::new();
        object.insert("postcode".to_string(), serde_json::Value::String(r.postcode.clone()));
        object.insert("recipe".to_string(), serde_json::Value::String(r.recipe.clone()));
        object.insert("delivery".to_string(), serde_json::Value::String(r.delivery.clone()));
        elements.push(serde_json::Value::Object(object));
    }
    serde_json::to_vec(&serde_json::Value::Array(elements)).unwrap()
}

#[test]
fn read_skipping_ws_returns_the_first_other_byte() {
    assert_eq!(StatsLoader::read_skipping_ws(b"[1]", 0), Some((b'[', 1)));
    assert_eq!(StatsLoader::read_skipping_ws(b" \t\r\n\x0c, x", 0), Some((b',', 6)));
    assert_eq!(StatsLoader::read_skipping_ws(b"ab  c", 2), Some((b'c', 5)));
    assert_eq!(StatsLoader::read_skipping_ws(b"ab", 1), Some((b'b', 2)));
}

#[test]
fn read_skipping_ws_at_the_end() {
    assert_eq!(StatsLoader::read_skipping_ws(b"", 0), None);
    assert_eq!(StatsLoader::read_skipping_ws(b"   \n", 0), None);
    assert_eq!(StatsLoader::read_skipping_ws(b"ab", 2), None);
}

#[test]
fn load_decodes_the_worked_example() {
    let records = StatsLoader::load(EXAMPLE.as_bytes()).unwrap();
    assert_eq!(
        records,
        vec![
            record("A", "Potato Soup", "10AM - 3PM"),
            record("A", "Potato Soup", "11AM - 2PM"),
            record("B", "Veggie Bowl", "1AM - 1PM"),
        ]
    );
}

#[test]
fn worked_example_from_bytes_to_report() {
    let records = StatsLoader::load(EXAMPLE.as_bytes()).unwrap();
    let pattern = DeliveryPattern::new().unwrap();
    let calc = StatsCalculator::new(
        CustomPostcodeDeliveryTime { postcode: "A".to_string(), from: 10, to: 3 },
        vec!["potato".to_string()],
    );
    let out = calc.calculateStats(&pattern, &records);
    assert_eq!(out.totalObjects, 3);
    assert_eq!(out.sortedRecipesCount.len(), 2);
    assert_eq!(out.sortedRecipesCount[0].recipe, "Potato Soup");
    assert_eq!(out.sortedRecipesCount[0].count, 2);
    assert_eq!(out.sortedRecipesCount[1].recipe, "Veggie Bowl");
    assert_eq!(out.sortedRecipesCount[1].count, 1);
    assert_eq!(out.uniqueRecipeCount, 1);
    assert_eq!(out.busiestPostcode.postcode, "A");
    assert_eq!(out.busiestPostcode.deliveryCount, 2);
    assert_eq!(out.countPerPostcodeAndTime.deliveryCount, 2);
    assert_eq!(out.sortedRecipeNames, vec!["Potato Soup".to_string()]);
}

#[test]
fn load_tolerates_whitespace_between_tokens() {
    let input = b" \n\t[ \r\n {\"postcode\" : \"1\", \"recipe\":\"r\" ,\"delivery\":\"d\"}\n\t ,\r {\"delivery\":\"e\",\"recipe\":\"s\",\"postcode\":\"2\"} \n] \n";
    let records = StatsLoader::load(input).unwrap();
    assert_eq!(records, vec![record("1", "r", "d"), record("2", "s", "e")]);
}

#[test]
fn load_ignores_members_it_does_not_know() {
    let input = br#"[{"postcode":"1","extra":[1,2,{"a":null}],"recipe":"r","delivery":"d","n":5}]"#;
    assert_eq!(StatsLoader::load(input).unwrap(), vec![record("1", "r", "d")]);
}

#[test]
fn load_unescapes_texts() {
    let input = r#"[{"postcode":"1","recipe":"Crème \"Brûlée\"","delivery":"a\\b"}]"#;
    assert_eq!(
        StatsLoader::load(input.as_bytes()).unwrap(),
        vec![record("1", "Crème \"Brûlée\"", "a\\b")]
    );
}

#[test]
fn missing_closing_bracket_is_a_malformed_array() {
    let input = br#"[{"postcode":"A","recipe":"Potato Soup","delivery":"10AM - 3PM"}"#;
    assert_eq!(
        StatsLoader::load(input),
        Err(DecodeError::MalformedArray(ArrayFault::SeparatorNotFound))
    );
    let input = br#"[{"postcode":"A","recipe":"r","delivery":"d"},{"postcode":"B","recipe":"r","delivery":"d"}  "#;
    assert_eq!(
        StatsLoader::load(input),
        Err(DecodeError::MalformedArray(ArrayFault::SeparatorNotFound))
    );
}

#[test]
fn wrong_separator_is_a_malformed_array() {
    let input = br#"[{"postcode":"A","recipe":"r","delivery":"d"} {"postcode":"B","recipe":"r","delivery":"d"}]"#;
    assert_eq!(
        StatsLoader::load(input),
        Err(DecodeError::MalformedArray(ArrayFault::SeparatorNotFound))
    );
    let input = br#"[{"postcode":"A","recipe":"r","delivery":"d"};]"#;
    assert_eq!(
        StatsLoader::load(input),
        Err(DecodeError::MalformedArray(ArrayFault::SeparatorNotFound))
    );
}

#[test]
fn missing_opening_bracket_is_a_malformed_array() {
    let fault = Err(DecodeError::MalformedArray(ArrayFault::OpeningBracketNotFound));
    assert_eq!(StatsLoader::load(b""), fault);
    assert_eq!(StatsLoader::load(b"  \n "), fault);
    assert_eq!(StatsLoader::load(br#"{"postcode":"A","recipe":"r","delivery":"d"}"#), fault);
    assert_eq!(StatsLoader::load(b"]"), fault);
}

#[test]
fn input_that_ends_early_is_a_premature_eof() {
    assert_eq!(StatsLoader::load(b"["), Err(DecodeError::PrematureEof));
    assert_eq!(StatsLoader::load(b"[  \n"), Err(DecodeError::PrematureEof));
    assert_eq!(StatsLoader::load(br#"[{"postcode":"A","rec"#), Err(DecodeError::PrematureEof));
    assert_eq!(
        StatsLoader::load(br#"[{"postcode":"A","recipe":"r","delivery":"d"},"#),
        Err(DecodeError::PrematureEof)
    );
}

#[test]
fn element_of_the_wrong_shape_is_invalid() {
    let invalid = Err(DecodeError::ElementInvalid);
    assert_eq!(StatsLoader::load(br#"[{"postcode":"A","recipe":"r"}]"#), invalid);
    assert_eq!(StatsLoader::load(br#"[{"postcode":1,"recipe":"r","delivery":"d"}]"#), invalid);
    assert_eq!(StatsLoader::load(br#"[{"postcode":"A","recipe":null,"delivery":"d"}]"#), invalid);
    assert_eq!(StatsLoader::load(br#"[["A","r","d"]]"#), invalid);
    assert_eq!(StatsLoader::load(br#"[5]"#), invalid);
    assert_eq!(StatsLoader::load(br#"["text"]"#), invalid);
    assert_eq!(StatsLoader::load(br#"[{"postcode":"A" "recipe":"r"}]"#), invalid);
    assert_eq!(StatsLoader::load(br#"[nonsense]"#), invalid);
}

#[test]
fn array_without_elements_decodes_to_no_records() {
    assert_eq!(StatsLoader::load(b"[]"), Ok(vec![]));
    assert_eq!(StatsLoader::load(b"[ ]"), Ok(vec![]));
    assert_eq!(StatsLoader::load(b" \n[\t\r\n ]\n"), Ok(vec![]));
}

#[test]
fn decoder_ends_at_once_on_an_empty_array() {
    let mut decoder = StatsLoader::iter_json_array(b" [ ] ");
    assert_eq!(decoder.next(), None);
    assert!(decoder.is_finished());
    assert_eq!(decoder.position(), 4);
    assert_eq!(decoder.next(), None);
}

#[test]
fn closing_bracket_ends_only_an_array_without_elements() {
    assert_eq!(StatsLoader::load(b"[,]"), Err(DecodeError::ElementInvalid));
    assert_eq!(
        StatsLoader::load(br#"[{"postcode":"A","recipe":"r","delivery":"d"},]"#),
        Err(DecodeError::ElementInvalid)
    );
    assert_eq!(StatsLoader::load(b"[}"), Err(DecodeError::ElementInvalid));
}

#[test]
fn one_bad_element_fails_the_whole_array() {
    let input = br#"[{"postcode":"A","recipe":"r","delivery":"d"},{"postcode":"B"}]"#;
    assert_eq!(StatsLoader::load(input), Err(DecodeError::ElementInvalid));
}

#[test]
fn failure_of_the_parser_becomes_an_error() {
    assert_eq!(DecodeError::from_failure(JsonFailure::Io), DecodeError::Io);
    assert_eq!(DecodeError::from_failure(JsonFailure::Eof), DecodeError::PrematureEof);
    assert_eq!(DecodeError::from_failure(JsonFailure::Syntax), DecodeError::ElementInvalid);
    assert_eq!(DecodeError::from_failure(JsonFailure::Data), DecodeError::ElementInvalid);
}

#[test]
fn record_from_members_needs_all_three() {
    let text = |s: &str| Some(s.to_string());
    assert_eq!(RecipeData::from_members(text("p"), text("r"), text("d")), Ok(record("p", "r", "d")));
    assert_eq!(RecipeData::from_members(None, text("r"), text("d")), Err(DecodeError::ElementInvalid));
    assert_eq!(RecipeData::from_members(text("p"), None, text("d")), Err(DecodeError::ElementInvalid));
    assert_eq!(RecipeData::from_members(text("p"), text("r"), None), Err(DecodeError::ElementInvalid));
}

#[test]
fn messages_say_what_went_wrong() {
    assert_eq!(
        DecodeError::MalformedArray(ArrayFault::OpeningBracketNotFound).message(),
        "opening bracket not found"
    );
    assert_eq!(
        DecodeError::MalformedArray(ArrayFault::SeparatorNotFound).message(),
        "separator not found"
    );
    assert_eq!(DecodeError::PrematureEof.message(), "premature EOF");
    assert_eq!(DecodeError::ElementInvalid.message(), "element invalid");
    assert_eq!(DecodeError::Io.message(), "read failed");
}

#[test]
fn decoder_reads_one_element_per_call() {
    let input = EXAMPLE.as_bytes();
    let first_end = EXAMPLE.find('}').unwrap() + 1;
    let mut decoder = StatsLoader::iter_json_array(input);
    assert_eq!(decoder.position(), 0);
    assert!(!decoder.is_finished());
    assert_eq!(decoder.next(), Some(Ok(record("A", "Potato Soup", "10AM - 3PM"))));
    assert_eq!(decoder.position(), first_end);
    assert_eq!(decoder.next(), Some(Ok(record("A", "Potato Soup", "11AM - 2PM"))));
    assert!(decoder.position() < input.len() / 3 * 2 + 10);
    assert_eq!(decoder.next(), Some(Ok(record("B", "Veggie Bowl", "1AM - 1PM"))));
    assert_eq!(decoder.position(), input.len() - 1);
    assert!(!decoder.is_finished());
    assert_eq!(decoder.next(), None);
    assert_eq!(decoder.position(), input.len());
    assert!(decoder.is_finished());
    assert_eq!(decoder.next(), None);
}

#[test]
fn decoder_does_not_look_at_what_follows_an_element() {
    let input = br#"[{"postcode":"A","recipe":"r","delivery":"d"} this is no JSON at all"#;
    let mut decoder = StatsLoader::iter_json_array(input);
    assert_eq!(decoder.next(), Some(Ok(record("A", "r", "d"))));
    assert_eq!(decoder.position(), 45);
    assert_eq!(
        decoder.next(),
        Some(Err(DecodeError::MalformedArray(ArrayFault::SeparatorNotFound)))
    );
}

#[test]
fn decoder_is_exhausted_after_an_error() {
    let input = br#"[{"postcode":"A"},{"postcode":"B","recipe":"r","delivery":"d"}]"#;
    let mut decoder = StatsLoader::iter_json_array(input);
    assert_eq!(decoder.next(), Some(Err(DecodeError::ElementInvalid)));
    assert!(decoder.is_finished());
    assert_eq!(decoder.next(), None);
    assert_eq!(decoder.next(), None);
}

#[test]
fn decoding_what_was_encoded_gives_the_records_back() {
    let mut seed: u64 = 0x2545F4914F6CDD1D;
    let mut next = move || {
        seed ^= seed << 13;
        seed ^= seed >> 7;
        seed ^= seed << 17;
        seed
    };
    let alphabet: Vec<char> = "abc XYZ019\"\\/\n\té日{}[],:".chars().collect();
    for n in [0usize, 1, 2, 5, 40] {
        let mut records = Vec::new();
        for _ in 0..n {
            let mut text = || {
                let len = (next() % 12) as usize;
                (0..len).map(|_| alphabet[(next() % alphabet.len() as u64) as usize]).collect::<String>()
            };
            records.push(RecipeData::new(text(), text(), text()));
        }
        let encoded = encode(&records);
        let decoded = StatsLoader::load(&encoded).unwrap();
        assert_eq!(decoded.len(), n);
        assert_eq!(decoded, records);
        let again = StatsLoader::load(&encode(&decoded)).unwrap();
        assert_eq!(again, records);
    }
}
