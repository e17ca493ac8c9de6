use gma::addon_metadata::AddonMetadata;
use gma::{AddonTag, AddonType};

#[test]
fn to_json_shape() {
    let m = AddonMetadata::new(
        "T".to_string(),
        "say \"hi\"\n\\".to_string(),
        &AddonType::ServerContent,
        &[AddonTag::Realism, AddonTag::Scenic],
    );
    assert_eq!(
        m.to_json(),
        "{\"title\":\"T\",\"description\":\"say \\\"hi\\\"\\n\\\\\",\"type\":\"servercontent\",\"tags\":[\"realism\",\"scenic\"]}"
    );
}

#[test]
fn control_characters_are_escaped_as_unicode() {
    let m = AddonMetadata::new("".to_string(), "\u{1}\u{7f}".to_string(), &AddonType::NPC, &[]);
    assert_eq!(
        m.to_json(),
        "{\"title\":\"\",\"description\":\"\\u0001\\u007f\",\"type\":\"npc\",\"tags\":[]}"
    );
    let back = AddonMetadata::from_json(&m.to_json()).unwrap();
    assert_eq!(back.get_description(), "\u{1}\u{7f}");
}

#[test]
fn from_json_round_trip() {
    let m = AddonMetadata::new(
        "title".to_string(),
        "tab\there, ünïcode ✓ and \"quotes\"".to_string(),
        &AddonType::GameMap,
        &[AddonTag::Water],
    );
    let back = AddonMetadata::from_json(&m.to_json()).unwrap();
    assert_eq!(back.get_description(), "tab\there, ünïcode ✓ and \"quotes\"");
    assert_eq!(back.get_type(), Some(AddonType::GameMap));
    assert_eq!(back.get_tags(), (Some(AddonTag::Water), None));
}

#[test]
fn from_json_rejects_non_records() {
    assert!(AddonMetadata::from_json("plain").is_none());
    assert!(AddonMetadata::from_json("{\"description\":\"a\",\"type\":\"tool\"}").is_none());
    assert!(AddonMetadata::from_json("{\"description\":\"a\",\"type\":\"tool\",\"tags\":[]} x").is_none());
    assert!(AddonMetadata::from_json("").is_none());
}

#[test]
fn from_json_skips_other_members() {
    let m = AddonMetadata::from_json(
        "{\"ignore\":[\"*.psd\"],\"title\":null,\"description\":\"d\",\"extra\":\"e\",\"type\":\"EFFECTS\",\"tags\":[\"Movie\"]}",
    )
    .unwrap();
    assert_eq!(m.get_description(), "d");
    assert_eq!(m.get_type(), Some(AddonType::Effects));
    assert_eq!(m.get_tags(), (Some(AddonTag::Movie), None));
}

#[test]
fn setters_change_fields() {
    let mut m = AddonMetadata::new("t".to_string(), "d".to_string(), &AddonType::Tool, &[AddonTag::Fun, AddonTag::Fun]);
    m.set_description("new".to_string());
    m.set_type(AddonType::Vehicle);
    m.set_tags(AddonTag::Comic, AddonTag::Roleplay);
    assert_eq!(m.get_description(), "new");
    assert_eq!(m.get_type(), Some(AddonType::Vehicle));
    assert_eq!(m.get_tags(), (Some(AddonTag::Comic), Some(AddonTag::Roleplay)));
}

#[test]
fn unicode_escapes_are_decoded() {
    let m = AddonMetadata::from_json("{\"description\":\"\\u00e9\\u0041\\/\\ud83d\\ude00\",\"type\":\"tool\",\"tags\":[]}").unwrap();
    assert_eq!(m.get_description(), "éA/😀");
}

#[test]
fn lone_surrogate_escape_is_rejected() {
    assert!(AddonMetadata::from_json("{\"description\":\"\\ud83d\",\"type\":\"tool\",\"tags\":[]}").is_none());
    assert!(AddonMetadata::from_json("{\"description\":\"\\ude00\",\"type\":\"tool\",\"tags\":[]}").is_none());
    assert!(AddonMetadata::from_json("{\"description\":\"\\u12\",\"type\":\"tool\",\"tags\":[]}").is_none());
}

#[test]
fn unknown_members_of_any_kind_are_skipped() {
    let m = AddonMetadata::from_json(
        "{\"n\": -12.5e+3, \"b\": true, \"f\": false, \"o\": {\"x\": [1, {\"y\": null}], \"z\": {}}, \"e\": [], \"description\":\"d\",\"type\":\"model\",\"tags\":[\"comic\"], \"last\": 7}",
    )
    .unwrap();
    assert_eq!(m.get_description(), "d");
    assert_eq!(m.get_type(), Some(AddonType::Model));
    assert_eq!(m.get_tags(), (Some(AddonTag::Comic), None));
    assert!(AddonMetadata::from_json("{\"n\": 1e, \"description\":\"d\",\"type\":\"model\",\"tags\":[]}").is_none());
    assert!(AddonMetadata::from_json("{\"n\": [1,], \"description\":\"d\",\"type\":\"model\",\"tags\":[]}").is_none());
}

#[test]
fn strict_names() {
    assert_eq!(AddonType::from_name("ServerContent"), Ok(AddonType::ServerContent));
    assert_eq!(AddonType::from_name("MAP"), Ok(AddonType::GameMap));
    assert_eq!(
        AddonType::from_name("Spaceship"),
        Err(gma::Error::InvalidAddonType("spaceship".to_string()))
    );
    assert_eq!(AddonTag::from_name("Roleplay"), Ok(AddonTag::Roleplay));
    assert_eq!(AddonTag::from_name("Xyz"), Err(gma::Error::InvalidAddonTag("xyz".to_string())));
    assert_eq!(AddonType::from_name("É"), Err(gma::Error::InvalidAddonType("é".to_string())));
    assert_eq!(AddonTag::from_name("ÀB"), Err(gma::Error::InvalidAddonTag("àb".to_string())));
}
