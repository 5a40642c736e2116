use bpa_analysis::common::{
    convert_full_to_short_predicates, convert_short_to_full_predicates, shorten_predicate_name,
    transform_display_value_to_uri, transform_uri_to_display_value, ConvertError,
};
use bpa_analysis::json::Json;
use bpa_analysis::mapping::PropertyMapping;

fn obj(entries: Vec<(&str, Json)>) -> Json {
    Json::Object(entries.into_iter().map(|(k, v)| (k.to_string(), v)).collect())
}

fn s(t: &str) -> Json {
    Json::Str(t.to_string())
}

fn entries(j: &Json) -> Vec<(String, String)> {
    match j {
        Json::Object(e) => e
            .iter()
            .map(|(k, v)| {
                let t = match v {
                    Json::Str(x) => x.clone(),
                    Json::Array(a) => a
                        .iter()
                        .map(|x| match x {
                            Json::Str(y) => y.clone(),
                            _ => "?".to_string(),
                        })
                        .collect::<Vec<_>>()
                        .join("|"),
                    Json::Number(n) => n.clone(),
                    _ => "?".to_string(),
                };
                (k.clone(), t)
            })
            .collect(),
        _ => vec![],
    }
}

fn pairs(v: &[(&str, &str)]) -> Vec<(String, String)> {
    v.iter().map(|(a, b)| (a.to_string(), b.to_string())).collect()
}

#[test]
fn shortening_twice_records_once() {
    let mut m = PropertyMapping::new();
    assert_eq!(shorten_predicate_name("v-bpa:processName", &mut m), "processName");
    assert_eq!(m.len(), 1);
    assert_eq!(shorten_predicate_name("v-bpa:processName", &mut m), "processName");
    assert_eq!(m.len(), 1);
    assert_eq!(m.get("processName"), Some(&"v-bpa:processName".to_string()));
    assert_eq!(shorten_predicate_name("other:processName", &mut m), "processName");
    assert_eq!(m.get("processName"), Some(&"v-bpa:processName".to_string()));
    assert_eq!(shorten_predicate_name("plain", &mut m), "plain");
    assert_eq!(shorten_predicate_name("a:b:c", &mut m), "c");
}

#[test]
fn display_values_and_uris() {
    let mut m = PropertyMapping::new();
    m.insert("status*Открыт".to_string(), "v-bpa:Open".to_string());
    m.insert("state*Открыт".to_string(), "v-bpa:Open".to_string());
    assert_eq!(transform_uri_to_display_value("v-bpa:Open", &m), Some("Открыт".to_string()));
    assert_eq!(transform_uri_to_display_value("v-bpa:Closed", &m), None);
    assert_eq!(transform_display_value_to_uri("state", "Открыт", &m), Some("v-bpa:Open".to_string()));
    assert_eq!(transform_display_value_to_uri("state", "Закрыт", &m), None);
}

#[test]
fn conversion_to_short_names_and_back() {
    let mut m = PropertyMapping::new();
    m.insert("state*Открыт".to_string(), "v-bpa:Open".to_string());
    let input = obj(vec![
        ("v-bpa:state", s("v-bpa:Open")),
        ("v-bpa:tags", Json::Array(vec![s("v-bpa:Open"), s("free text")])),
        ("v-bpa:count", Json::Number("3".to_string())),
    ]);
    let short = convert_full_to_short_predicates(&input, &mut m).unwrap();
    assert_eq!(
        entries(&short),
        pairs(&[("state", "Открыт"), ("tags", "Открыт|free text"), ("count", "3")])
    );
    assert_eq!(m.get("state"), Some(&"v-bpa:state".to_string()));
    assert_eq!(m.get("tags"), Some(&"v-bpa:tags".to_string()));
    let full = convert_short_to_full_predicates(&short, &m).unwrap();
    assert_eq!(
        entries(&full),
        pairs(&[("v-bpa:state", "v-bpa:Open"), ("v-bpa:tags", "Открыт|free text"), ("v-bpa:count", "3")])
    );
}

#[test]
fn conversion_needs_an_object() {
    let mut m = PropertyMapping::new();
    assert_eq!(convert_full_to_short_predicates(&s("x"), &mut m).err(), Some(ConvertError::ExpectedObject));
    assert_eq!(convert_short_to_full_predicates(&Json::Null, &m).err(), Some(ConvertError::ExpectedObject));
    assert_eq!(ConvertError::ExpectedObject.message(), "Expected object for input");
    assert_eq!(m.len(), 0);
}

#[test]
fn plain_object_survives_the_round_trip() {
    let mut m = PropertyMapping::new();
    let input = obj(vec![
        ("v-bpa:title", s("Supply")),
        ("rdfs:label", Json::Array(vec![s("one"), Json::Bool(true)])),
        ("count", Json::Number("7".to_string())),
    ]);
    let short = convert_full_to_short_predicates(&input, &mut m).unwrap();
    assert_eq!(entries(&short), pairs(&[("title", "Supply"), ("label", "one|?"), ("count", "7")]));
    let back = convert_short_to_full_predicates(&short, &m).unwrap();
    assert_eq!(entries(&back), entries(&input));
    assert_eq!(entries(&back)[1].0, "rdfs:label");
}
