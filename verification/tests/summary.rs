use nasus::summary::{accuracies, decimal_text, locator_ids, summary_text, Rating};

fn rating(accuracy: u32, points: &str) -> Rating {
    Rating { accuracy, points: points.to_string() }
}

fn ids(locator: &str) -> (String, String) {
    locator_ids(locator)
}

#[test]
fn locator_carries_set_and_map() {
    assert_eq!(
        ids("https://osu.ppy.sh/beatmapsets/57525#/173391"),
        ("57525".to_string(), "173391".to_string())
    );
    assert_eq!(
        ids("https://osu.ppy.sh/beatmapsets/57525#osu/173391"),
        ("57525".to_string(), "173391".to_string())
    );
}

#[test]
fn locator_ids_agree_with_splitting() {
    for locator in [
        "",
        "#",
        "/",
        "a",
        "a/b",
        "a/b#c/d",
        "a/b#c/d#e/f",
        "a/b/#/",
        "#/7",
        "7#",
        "a#b",
        "x/y/z",
        "http://example/1",
        "s/\u{e9}#/\u{1F600}",
    ] {
        let set = locator.split('#').next().unwrap().split('/').last().unwrap();
        let map = locator.split('#').last().unwrap().split('/').last().unwrap();
        assert_eq!(ids(locator), (set.to_string(), map.to_string()), "{:?}", locator);
    }
}

#[test]
fn locator_without_hash_gives_its_last_segment_twice() {
    assert_eq!(ids("http://example/1"), ("1".to_string(), "1".to_string()));
}

#[test]
fn decimal_text_is_the_usual_notation() {
    for n in [0u32, 1, 7, 9, 10, 11, 95, 99, 100, 101, 1000, 65535, 4294967295] {
        assert_eq!(decimal_text(n), n.to_string());
    }
    for n in 0..2000u32 {
        assert_eq!(decimal_text(n), n.to_string());
    }
}

#[test]
fn accuracies_are_five() {
    assert_eq!(accuracies(), vec![95, 97, 98, 99, 100]);
}

#[test]
fn summary_gives_link_and_ratings() {
    let ratings = vec![
        rating(95, "100"),
        rating(97, "120"),
        rating(98, "130"),
        rating(99, "150"),
        rating(100, "200"),
    ];
    assert_eq!(
        summary_text("57525", "173391", &ratings),
        "[https://osu.ppy.sh/beatmapsets/57525#/173391 Map] 95%: 100pp | 97%: 120pp | 98%: 130pp | 99%: 150pp | 100%: 200pp |"
    );
}

#[test]
fn summary_of_one_rating() {
    assert_eq!(
        summary_text("1", "2", &vec![rating(100, "NaN")]),
        "[https://osu.ppy.sh/beatmapsets/1#/2 Map] 100%: NaNpp |"
    );
}

#[test]
fn summary_without_ratings_is_the_link() {
    assert_eq!(summary_text("1", "2", &Vec::new()), "[https://osu.ppy.sh/beatmapsets/1#/2 Map]");
    assert_eq!(summary_text("", "", &Vec::new()), "[https://osu.ppy.sh/beatmapsets/#/ Map]");
}

#[test]
fn summary_agrees_with_formatting() {
    let accuracy = [95.0f32, 97.0, 98.0, 99.0, 100.0];
    let pp = [312.4f32, 340.5, 361.49, 390.0, 0.2];
    let mut expected = format!("[https://osu.ppy.sh/beatmapsets/{}#/{} Map] ", "57525", "173391");
    for (i, pp) in pp.iter().enumerate() {
        expected.push_str(&format!("{}%: {}pp | ", accuracy[i], pp.round()));
    }
    expected.pop();
    let mut ratings = Vec::new();
    for (i, percent) in accuracies().into_iter().enumerate() {
        ratings.push(Rating { accuracy: percent, points: format!("{}", pp[i].round()) });
    }
    assert_eq!(summary_text("57525", "173391", &ratings), expected);
}
