use rando_kanji::config::{answer_outcome_of, Config, ButtonTextOption, ProfileEnum, REVIEW_INTERVAL_STEP};
use rando_kanji::game::AnswerData;
use rando_kanji::kanji::{join_meanings, join_readings, KanjiRecord};
use rando_kanji::store::{ReviewStore, StatValue};

fn answer(correct: bool, kanji: char) -> AnswerData {
    AnswerData { correct_index: 2, index_to_test: if correct { 2 } else { 1 }, kanji }
}

fn stat(learning_index: i32, last_review_time: u64, review_interval: u64) -> StatValue {
    StatValue { learning_index, last_review_time, review_interval }
}

#[test]
fn correct_answer_reaching_threshold_grows_interval() {
    let mut config = Config::default();
    config.learning_index_threshold = 5;
    config.answer_statistics.insert('山', stat(4, 100, 600));
    assert!(config.check_answer_at(&answer(true, '山'), 200));
    assert_eq!(config.answer_statistics.get('山'), Some(stat(5, 100, 600 + REVIEW_INTERVAL_STEP)));
}

#[test]
fn correct_answers_raise_index_one_each() {
    let mut config = Config::default();
    config.learning_index_threshold = 5;
    config.answer_statistics.insert('川', stat(1, 100, 300));
    for _ in 0..3 {
        config.check_answer_at(&answer(true, '川'), 200);
    }
    assert_eq!(config.answer_statistics.get('川'), Some(stat(4, 100, 300)));
    for _ in 0..3 {
        config.check_answer_at(&answer(true, '川'), 200);
    }
    assert_eq!(config.answer_statistics.get('川'), Some(stat(7, 100, 300 + REVIEW_INTERVAL_STEP)));
}

#[test]
fn wrong_answer_lowers_index_without_floor() {
    let mut config = Config::default();
    config.answer_statistics.insert('木', stat(0, 100, 300));
    assert!(!config.check_answer_at(&answer(false, '木'), 200));
    assert!(!config.check_answer_at(&answer(false, '木'), 200));
    assert_eq!(config.answer_statistics.get('木'), Some(stat(-2, 100, 300)));
}

#[test]
fn first_answer_creates_record() {
    let mut config = Config::default();
    config.review_interval_step = 120;
    assert!(config.check_answer_at(&answer(true, '火'), 5_000));
    assert_eq!(config.answer_statistics.get('火'), Some(stat(1, 5_000, 120)));
    assert!(!config.check_answer(&answer(false, '水')));
    assert_eq!(config.answer_statistics.get('水').unwrap().learning_index, -1);
    assert_eq!(config.answer_statistics.len(), 2);
}

#[test]
fn index_saturates_at_extremes() {
    let mut config = Config::default();
    config.answer_statistics.insert('金', stat(i32::MAX, 0, 0));
    config.answer_statistics.insert('土', stat(i32::MIN, 0, 0));
    config.check_answer_at(&answer(true, '金'), 1);
    config.check_answer_at(&answer(false, '土'), 1);
    assert_eq!(config.answer_statistics.get('金').unwrap().learning_index, i32::MAX);
    assert_eq!(config.answer_statistics.get('土').unwrap().learning_index, i32::MIN);
}

#[test]
fn outcome_rule_on_values() {
    let v = stat(4, 7, 10);
    assert_eq!(answer_outcome_of(v, true, 5, 3), stat(5, 7, 13));
    assert_eq!(answer_outcome_of(stat(5, 7, 10), true, 5, 3), stat(6, 7, 10));
    assert_eq!(answer_outcome_of(v, false, 5, 3), stat(3, 7, 10));
}

#[test]
fn default_config_values() {
    let config = Config::default();
    assert_eq!(config.learning_index_threshold, 5);
    assert_eq!(config.kanji_pool_max_size, 10);
    assert_eq!(config.review_interval_step, 300);
    assert_eq!(config.button_text_option, ButtonTextOption::Kana);
    assert_eq!(config.profile.id, ProfileEnum::Profile1);
    assert_eq!(config.profile.name, "Default profile");
    assert!(!config.was_used_last);
    assert!(config.answer_statistics.is_empty());
}

#[test]
fn default_record_uses_base_step() {
    let v = StatValue::default();
    assert_eq!(v.learning_index, 0);
    assert_eq!(v.review_interval, REVIEW_INTERVAL_STEP);
    assert_eq!(StatValue::new_at(9, 4), stat(0, 9, 4));
}

#[test]
fn file_names_and_labels() {
    assert_eq!(Config::get_filename(ProfileEnum::Profile1), "./config1.json");
    assert_eq!(Config::get_filename(ProfileEnum::Profile2), "./config2.json");
    assert_eq!(Config::get_filename(ProfileEnum::Profile3), "./config3.json");
    let mut config = Config::default();
    config.profile.id = ProfileEnum::Profile3;
    assert_eq!(config.filename(), "./config3.json");
    assert_eq!(ProfileEnum::Profile2.label(), "Profile 2");
}

#[test]
fn minutes_convert_to_seconds() {
    assert_eq!(Config::minutes_to_seconds(5), 300);
    assert_eq!(Config::minutes_to_seconds(0), 0);
}

#[test]
fn reset_review_times_marks_all_records() {
    let mut config = Config::default();
    config.answer_statistics.insert('一', stat(3, 10, 20));
    config.answer_statistics.insert('二', stat(-1, 30, 40));
    config.reset_review_times_at(99);
    assert_eq!(config.answer_statistics.get('一'), Some(stat(3, 99, 20)));
    assert_eq!(config.answer_statistics.get('二'), Some(stat(-1, 99, 40)));
    config.reset_review_times();
    assert!(config.answer_statistics.get('一').unwrap().last_review_time > 99);
}

#[test]
fn store_insert_replaces_existing_key() {
    let mut store = ReviewStore::new();
    assert!(store.is_empty());
    store.insert('日', stat(1, 2, 3));
    store.insert('月', stat(4, 5, 6));
    store.insert('日', stat(7, 8, 9));
    assert_eq!(store.len(), 2);
    assert_eq!(store.get('日'), Some(stat(7, 8, 9)));
    assert_eq!(store.key_at(0), '日');
    assert_eq!(store.value_at(1), stat(4, 5, 6));
    assert_eq!(store.find('月'), Some(1));
    assert_eq!(store.find('火'), None);
    assert!(!store.contains_key('火'));
    store.set_value_at(1, stat(0, 0, 0));
    assert_eq!(store.get('月'), Some(stat(0, 0, 0)));
}

fn record(on: &str, kun: &str) -> KanjiRecord {
    KanjiRecord {
        id: 1,
        kanji: '日',
        jlpt: 5,
        joyo_reading: String::from("にち"),
        reading: String::new(),
        on_reading: on.to_string(),
        on_trans: String::from("day"),
        kun_reading: kun.to_string(),
        kun_trans: String::from("sun"),
    }
}

#[test]
fn romaji_trims_each_reading() {
    assert_eq!(record("  nichi ", "\thi\n").as_romaji(), "nichi hi");
    assert_eq!(record("", "").as_romaji(), " ");
    assert_eq!(record("\u{3000}on\u{a0}", "\u{2003}kun\u{85}").as_romaji(), "on kun");
    assert_eq!(record(" a b ", "").as_romaji(), "a b ");
    assert_eq!(join_readings("a", "b"), "a b");
}

#[test]
fn records_compare_by_identity() {
    let a = record("x", "y");
    let mut b = record("z", "w");
    assert!(a == b);
    b.id = 2;
    assert!(a != b);
}

fn meanings(on: &str, kun: &str) -> KanjiRecord {
    let mut r = record("on", "kun");
    r.on_trans = on.to_string();
    r.kun_trans = kun.to_string();
    r
}

#[test]
fn meaning_joins_distinct_translations() {
    assert_eq!(meanings(" day ", "sun").as_meaning(), "day; sun");
    assert_eq!(meanings("day", " day").as_meaning(), "day");
    assert_eq!(meanings(" - ", "sun").as_meaning(), "sun");
    assert_eq!(meanings("day", "-").as_meaning(), "day");
    assert_eq!(meanings("-", "-").as_meaning(), "");
    assert_eq!(meanings("", "moon").as_meaning(), "moon");
}

#[test]
fn long_meaning_is_cut_at_last_separator() {
    let long = format!("{}, bbbb, cc", "a".repeat(95));
    assert_eq!(join_meanings(&long, "-"), format!("{}, bbbb", "a".repeat(95)));
    let no_sep = "x".repeat(120);
    assert_eq!(join_meanings(&no_sep, ""), no_sep);
    let short = "one, two";
    assert_eq!(join_meanings(short, "-"), "one, two");
}

#[test]
fn button_text_follows_option() {
    let mut r = meanings("day", "sun");
    r.joyo_reading = String::from("  にち ");
    assert_eq!(r.button_text(ButtonTextOption::Kana), "にち");
    assert_eq!(r.button_text(ButtonTextOption::Romaji), "on kun");
    assert_eq!(r.button_text(ButtonTextOption::Meaning), "day; sun");
}

#[test]
fn trim_drops_unicode_white_space() {
    assert_eq!(rando_kanji::kanji::trim("\u{3000} x y\t\n"), "x y");
    assert_eq!(rando_kanji::kanji::trim(" \u{a0} "), "");
    assert_eq!(rando_kanji::kanji::trim("z"), "z");
}

#[test]
fn profile_choice_prefers_last_used() {
    assert_eq!(rando_kanji::config::pick_profile(&vec![false, true, true]), Some(1));
    assert_eq!(rando_kanji::config::pick_profile(&vec![false, false]), Some(1));
    assert_eq!(rando_kanji::config::pick_profile(&vec![]), None);
}
