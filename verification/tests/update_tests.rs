use fox_llm::task_update::{deserialize_task_ids, extract_task_update, parse_task_update, TaskUpdate};
use fox_llm::tasks::Invariant;
use fox_llm::verdict::{parse_verification_result, VerificationVerdict};
use serde::de::{Deserialize, Deserializer, Error, MapAccess, SeqAccess, Visitor};

const FIELDS: &[&str] = &["f", "e", "v", "ed", "vd", "s"];

/// The struct of an update as `serde` reads it.
struct Expected(TaskUpdate);

struct Key(usize);

struct Ids(Vec<u64>);

enum Id {
    Number(u64),
    Text(String),
}

struct KeyVisitor;

struct UpdateVisitor;

impl<'de> Visitor<'de> for KeyVisitor {
    type Value = Key;

    fn expecting(&self, formatter: &mut std::fmt::Formatter) -> std::fmt::Result {
        formatter.write_str("field identifier")
    }

    fn visit_str<E: Error>(self, value: &str) -> Result<Key, E> {
        match FIELDS.iter().position(|field| *field == value) {
            Some(index) => Ok(Key(index)),
            None => Err(E::unknown_field(value, FIELDS)),
        }
    }
}

impl<'de> Deserialize<'de> for Key {
    fn deserialize<D: Deserializer<'de>>(deserializer: D) -> Result<Self, D::Error> {
        deserializer.deserialize_identifier(KeyVisitor)
    }
}

impl<'de> Deserialize<'de> for Id {
    fn deserialize<D: Deserializer<'de>>(deserializer: D) -> Result<Self, D::Error> {
        let value = serde_json::Value::deserialize(deserializer)?;
        if let Some(number) = value.as_u64() {
            return Ok(Id::Number(number));
        }
        match value.as_str() {
            Some(text) => Ok(Id::Text(text.to_owned())),
            None => Err(D::Error::custom("data did not match any variant of untagged enum TaskId")),
        }
    }
}

impl<'de> Deserialize<'de> for Ids {
    fn deserialize<D: Deserializer<'de>>(deserializer: D) -> Result<Self, D::Error> {
        let mut ids = Vec::new();
        for id in Vec::<Id>::deserialize(deserializer)? {
            ids.push(match id {
                Id::Number(id) => id,
                Id::Text(text) => text.parse().map_err(|_| {
                    D::Error::custom(format!(
                        "ID пункта должен быть положительным целым числом: {text:?}"
                    ))
                })?,
            });
        }
        Ok(Ids(ids))
    }
}

impl<'de> Visitor<'de> for UpdateVisitor {
    type Value = Expected;

    fn expecting(&self, formatter: &mut std::fmt::Formatter) -> std::fmt::Result {
        formatter.write_str("struct TaskUpdate")
    }

    fn visit_seq<A: SeqAccess<'de>>(self, mut seq: A) -> Result<Expected, A::Error> {
        Ok(Expected(TaskUpdate {
            f: seq.next_element()?.unwrap_or_default(),
            e: seq.next_element()?.unwrap_or_default(),
            v: seq.next_element()?.unwrap_or_default(),
            ed: seq.next_element::<Ids>()?.map(|ids| ids.0).unwrap_or_default(),
            vd: seq.next_element::<Ids>()?.map(|ids| ids.0).unwrap_or_default(),
            s: seq.next_element::<Option<String>>()?.unwrap_or_default(),
        }))
    }

    fn visit_map<A: MapAccess<'de>>(self, mut map: A) -> Result<Expected, A::Error> {
        let mut update = TaskUpdate::default();
        let mut read = [false; 6];
        while let Some(Key(index)) = map.next_key()? {
            if read[index] {
                return Err(A::Error::duplicate_field(FIELDS[index]));
            }
            match index {
                0 => update.f = map.next_value()?,
                1 => update.e = map.next_value()?,
                2 => update.v = map.next_value()?,
                3 => update.ed = map.next_value::<Ids>()?.0,
                4 => update.vd = map.next_value::<Ids>()?.0,
                _ => update.s = map.next_value()?,
            }
            read[index] = true;
        }
        Ok(Expected(update))
    }
}

impl<'de> Deserialize<'de> for Expected {
    fn deserialize<D: Deserializer<'de>>(deserializer: D) -> Result<Self, D::Error> {
        deserializer.deserialize_struct("TaskUpdate", FIELDS, UpdateVisitor)
    }
}

fn read_as_serde_does(texts: &[&str]) {
    for text in texts {
        let expected = match serde_json::from_str::<Expected>(text) {
            Ok(update) => Ok(update.0),
            Err(error) => Err(error.to_string()),
        };
        assert_eq!(parse_task_update(text), expected, "{text}");
    }
}

#[test]
fn updates_are_read_as_structs() {
    read_as_serde_does(&[
        "{}",
        "[]",
        " { } ",
        "{\"f\":[]}",
        "{\"f\":[\"факт, с запятой: и \\\"кавычками\\\"\"],\"e\":[\"a\",\"b\"],\"v\":[\"c]\"]}",
        "{ \"ed\" : [ 1 , \"2\" ] , \"vd\" : [] , \"s\" : \"итог\" }",
        "{\"s\":null}",
        "{\"\\u0066\":[\"x\"]}",
        "[[\"a\"],[\"b\"],[\"c\"],[1,\"2\"],[],\"s\"]",
        "[[\"a\"]]",
        "[[],[],[],[],[],null]",
    ]);
}

#[test]
fn wrong_updates_are_refused_in_place() {
    read_as_serde_does(&[
        "{\"x\":1}",
        "{\"f\":[],\"неизвестно\"  : 1}",
        "{\"f\":[\"я\"],\"f\":[]}",
        "{\"e\":[],\"\\u0065\":[\"a\"]}",
        "{\"s\":\"a\", \"ed\":[1], \"s\" :\"b\"}",
        "{\"f\":5}",
        "{\"f\": \"текст, expected a sequence\"}",
        "{\"f\":{\"a\":[1]}}",
        "{\"e\":[\"я\", 5 ,\"b\"]}",
        "{\"e\":[\"a\",[\"b\"]]}",
        "{\"v\":null}",
        "{\"s\":5}",
        "{\"s\": [1]}",
        "{\"s\":-1.5}",
        "{\"ed\":5}",
        "{\"ed\":{}}",
        "{\"ed\":[1,true]}",
        "{\"ed\":[1, -2 ,3]}",
        "{\"ed\":[1.5,\n 2]}",
        "{\"ed\":[\"x\"]}",
        "{\"ed\":[\"x\"] , \"s\":null}",
        "{\"vd\":[\"x\", {\"a\":1}]}",
        "{\n \"f\": [\"a\"],\n \"vd\": [\"-1\"]\n}",
        "{\n \"f\": [\"a\"],\n \"e\": [1]\n}",
    ]);
}

#[test]
fn wrong_lists_of_fields_are_refused_in_place() {
    read_as_serde_does(&[
        "[5]",
        "[[],[1]]",
        "[[],[],[],[\"x\"]]",
        "[[],[],[],[\"x\"] , [1]]",
        "[[],[],[],[null]]",
        "[[],[],[],[],[],5]",
        "[[],[],[],[],[],null,7]",
        "[[],[],[],[],[],null ,  7 , 8]",
    ]);
}

#[test]
fn other_texts_are_refused_in_place() {
    read_as_serde_does(&[
        "",
        "   ",
        "5",
        " \"текст\" ",
        "\"x, expected a sequence\"",
        "true",
        "null\n",
        "{bad",
        "{\"f\":[\"a\"",
        "{\"f\":[\"a\"]",
        "{\"f\":[\"a\"],}",
        "{\"f\":[\"a\"] \"e\":[]}",
        "{\"f\":[\"a\"}",
        "{\"x\":1,",
        "{\"f\":[],\"x\":",
        "{\"f\":[],\"f\":[\"a\"",
        "{\"f\":[],\"f\"",
        "{\"f\":[1,",
        "{\"x\"}",
        "{\"x\" 1}",
        "{\"f\":5,\"e\":[}",
        "{\"f\":[]} лишнее",
        "текст {\"x\":1",
    ]);
}

#[test]
fn texts_that_break_off_are_refused_in_place() {
    for text in [
        "{\"f\":[\"я\", 1],\"e\":[\"a\"]}",
        " { \"ed\" : [ 1 , \"2\" , -3 ] , \"s\" : \"итог\" } ",
        "{\"ed\":[1,\"x\"],\"vd\":[true],\"s\":null}",
        "{\"vd\":[{\"a\":[1]},2],\"неизвестно\":[1]}",
        "{\"f\":[\"a\"],\"f\" :[\"b\"],\"s\":5}",
        "{\"s\":{\"a\":1},\"e\":\"b\"}",
        "{\n\"v\":[\"a\\\"b\",\"\\u0041\"],\n\"s\":[]}",
        "[[\"a\"],[\"b\", 1],[],[1, null],[\"x\"],\"s\"]",
        " [ [] , [ ] , [] , [ \"y\" ] , [1.5] , null , 7 ] ",
        "[[],[],[],[\"1\"],[\"2\",\"z\"],4]",
    ] {
        let ends: Vec<usize> = text.char_indices().map(|(end, _)| end).collect();
        let begun: Vec<&str> = ends.iter().map(|end| &text[..*end]).collect();
        read_as_serde_does(&begun);
    }
}

#[test]
fn texts_with_a_slip_are_refused_in_place() {
    for text in [
        "{\"f\":[\"a\",\"b\"],\"ed\":[1,\"2\"],\"s\":\"c\"}",
        "[[\"a\"],[],[],[1],[\"2\"],\"s\"]",
        "{\"ed\":[1,true],\"x\":1}",
        "{\"vd\" : [ -5 , 1.5 ] , \"vd\" : 1 }",
        "{\"ed\":[\"x\", null],\"s\":{}}",
        "[[1],[],[],[{\"a\":1}],[\"z\"],5,6]",
        "{\"f\":[\"\\n\"],\"e\":[1]}",
    ] {
        for (at, c) in text.char_indices() {
            let mut without = text.to_owned();
            without.remove(at);
            read_as_serde_does(&[&without]);
            for other in [
                "x", ",", ":", "]", "}", "[", "{", "1", " ", "\"", "\\", "e", ".", "-", "0", "\n",
            ] {
                let mut with = text.to_owned();
                with.insert_str(at, other);
                let mut instead = text.to_owned();
                instead.replace_range(at..at + c.len_utf8(), other);
                read_as_serde_does(&[&with, &instead]);
            }
        }
    }
}

#[test]
fn repeated_fields_of_an_update_are_refused() {
    let (text, update) =
        extract_task_update("Готово.\nTASK_UPDATE:{\"ed\":[1],\"s\":\"a\",\"ed\":[2]}");
    assert_eq!(text, "Готово.");
    assert_eq!(
        update.unwrap().unwrap_err(),
        "некорректный TASK_UPDATE: duplicate field `ed` at line 1 column 22"
    );
}

#[test]
fn forms_of_identifiers_are_checked_before_their_digits() {
    let ids = |items: &[&str]| {
        deserialize_task_ids(&items.iter().map(|item| item.to_string()).collect())
    };
    assert_eq!(ids(&["1", "\"2\""]), Ok(vec![1, 2]));
    assert_eq!(
        ids(&["\"x\"", "1"]),
        Err("ID пункта должен быть положительным целым числом: \"x\"".to_owned())
    );
    assert_eq!(
        ids(&["\"x\"", "true"]),
        Err("data did not match any variant of untagged enum TaskId".to_owned())
    );
}

#[test]
fn repeated_fields_of_a_verdict_are_refused() {
    let rules = vec![Invariant { id: 7, content: "Только Rust".to_owned(), enabled: true }];
    let verdict = "{\"verdict\":\"violation\",\"invariant_ids\":[7],\"reason\":\"Python\"}";
    let read = parse_verification_result(verdict, &rules).unwrap();
    assert_eq!(read.verdict, VerificationVerdict::Violation);
    for repeated in [
        "{\"verdict\":\"violation\",\"verdict\":\"allow\",\"invariant_ids\":[],\"reason\":\"\"}",
        "{\"verdict\":\"allow\",\"invariant_ids\":[7],\"invariant_ids\":[],\"reason\":\"\"}",
        "{\"verdict\":\"allow\",\"invariant_ids\":[],\"reason\":\"a\",\"\\u0072eason\":\"\"}",
        "{\"verdict\":{\"allow\":null,\"allow\":null},\"invariant_ids\":[],\"reason\":\"\"}",
    ] {
        assert_eq!(
            parse_verification_result(repeated, &rules).unwrap_err(),
            "проверка вернула невалидный JSON-вердикт",
            "{repeated}"
        );
    }
    let tagged = "{\"verdict\":{\"allow\":null},\"invariant_ids\":[],\"reason\":\"\"}";
    assert!(parse_verification_result(tagged, &rules).is_ok());
}
