use rustc_serialize::json::Json;

use prism::Stats;
use prism::status_json;

fn doc(paths: &[&str], stats: &[(usize, usize)]) -> String {
    let path_bytes: Vec<Vec<u8>> = paths.iter().map(|p| p.as_bytes().to_vec()).collect();
    let stat_values: Vec<Stats> = stats
        .iter()
        .map(|&(capacity, rx_frames)| Stats { capacity, rx_frames })
        .collect();
    String::from_utf8(status_json(&path_bytes, &stat_values)).unwrap()
}

#[test]
fn status_exact_document() {
    let s = doc(&["a"], &[(5, 7)]);
    assert_eq!(s, "{\"a\":{\"capacity\":5,\"rx_frames\":7}}\n");
}

#[test]
fn status_snapshot_well_formed() {
    let s = doc(&["two.pcap", "one.pcap"], &[(100, 3), (98, 5)]);
    let parsed = Json::from_str(&s).unwrap();
    let object = parsed.as_object().unwrap();
    assert_eq!(object.len(), 2);
    let one = object.get("one.pcap").unwrap().as_object().unwrap();
    assert_eq!(one.get("capacity").unwrap().as_u64(), Some(98));
    assert_eq!(one.get("rx_frames").unwrap().as_u64(), Some(5));
    let two = object.get("two.pcap").unwrap().as_object().unwrap();
    assert_eq!(two.get("capacity").unwrap().as_u64(), Some(100));
    assert_eq!(two.get("rx_frames").unwrap().as_u64(), Some(3));
}

#[test]
fn status_orders_keys_lexicographically() {
    let s = doc(&["z", "ab", "a"], &[(1, 1), (2, 2), (3, 3)]);
    let a = s.find("\"a\":").unwrap();
    let ab = s.find("\"ab\":").unwrap();
    let z = s.find("\"z\":").unwrap();
    assert!(a < ab && ab < z);
    assert_eq!(s, "{\"a\":{\"capacity\":3,\"rx_frames\":3},\"ab\":{\"capacity\":2,\"rx_frames\":2},\"z\":{\"capacity\":1,\"rx_frames\":1}}\n");
}

#[test]
fn status_escapes_special_bytes() {
    let path = "a\"b\\c\nd";
    let path_bytes: Vec<Vec<u8>> = vec![path.as_bytes().to_vec()];
    let stat_values = vec![Stats { capacity: 1, rx_frames: 2 }];
    let s = String::from_utf8(status_json(&path_bytes, &stat_values)).unwrap();
    assert!(s.contains("a\\\"b\\\\c\\u000ad"));
    let parsed = Json::from_str(&s).unwrap();
    let object = parsed.as_object().unwrap();
    assert!(object.contains_key(path));
}

#[test]
fn status_numbers_render_in_decimal() {
    let s = doc(&["p"], &[(0, 123456)]);
    assert_eq!(s, "{\"p\":{\"capacity\":0,\"rx_frames\":123456}}\n");
    let parsed = Json::from_str(&s).unwrap();
    let p = parsed.as_object().unwrap().get("p").unwrap().as_object().unwrap();
    assert_eq!(p.get("rx_frames").unwrap().as_u64(), Some(123456));
}

#[test]
fn status_keeps_duplicate_paths() {
    // Two writers given the same path still publish two members.
    let s = doc(&["same", "same"], &[(1, 1), (2, 2)]);
    assert_eq!(s.matches("\"same\":").count(), 2);
}

#[test]
fn status_of_no_shards_is_an_empty_object() {
    let s = doc(&[], &[]);
    assert_eq!(s, "{}\n");
}
