use rando_kanji::config::Config;
use rando_kanji::deal::DealError;
use rando_kanji::dealer::KanjiDealer;
use rando_kanji::kanji::KanjiRecord;
use rando_kanji::store::StatValue;

fn record(id: u32, kanji: char) -> KanjiRecord {
    KanjiRecord {
        id,
        kanji,
        jlpt: 5,
        joyo_reading: format!("reading {}", id),
        reading: String::new(),
        on_reading: format!(" on{} ", id),
        on_trans: format!("meaning {}", id),
        kun_reading: format!(" kun{} ", id),
        kun_trans: String::from("-"),
    }
}

const KANJI: [char; 12] = ['一', '二', '三', '四', '五', '六', '七', '八', '九', '十', '百', '千'];

fn catalog(n: usize) -> Vec<KanjiRecord> {
    (0..n).map(|i| record(i as u32 + 1, KANJI[i])).collect()
}

fn config_with_max(max: u32) -> Config {
    let mut c = Config::default();
    c.kanji_pool_max_size = max;
    c
}

fn distinct(v: &[char]) -> bool {
    let mut w = v.to_vec();
    w.sort();
    w.dedup();
    w.len() == v.len()
}

fn stat(learning_index: i32, last_review_time: u64, review_interval: u64) -> StatValue {
    StatValue { learning_index, last_review_time, review_interval }
}

#[test]
fn first_run_fills_pool_with_unseen_items() {
    let mut dealer = KanjiDealer::with_seed(catalog(10), 1);
    let mut config = config_with_max(5);
    dealer.update_kanji_pool(&mut config);
    assert_eq!(dealer.kanji_pool.len(), 5);
    assert!(distinct(&dealer.kanji_pool));
    for c in &dealer.kanji_pool {
        assert!(KANJI[..10].contains(c));
        assert!(!config.answer_statistics.contains_key(*c));
    }
    assert!(config.answer_statistics.is_empty());
}

#[test]
fn pool_stays_within_bound_when_catalog_is_small() {
    let mut dealer = KanjiDealer::with_seed(catalog(3), 2);
    let mut config = config_with_max(5);
    dealer.update_kanji_pool_at(&mut config, 1_000);
    assert_eq!(dealer.kanji_pool.len(), 3);
    assert!(distinct(&dealer.kanji_pool));
}

#[test]
fn oversized_pool_is_cut_to_bound_and_deduplicated() {
    let mut dealer = KanjiDealer::with_seed(catalog(10), 3);
    dealer.kanji_pool = vec!['一', '二', '二', '三', '四', '五', '六'];
    let mut config = config_with_max(4);
    dealer.update_kanji_pool_at(&mut config, 1_000);
    assert_eq!(dealer.kanji_pool, vec!['一', '二', '三', '四']);
}

#[test]
fn zero_bound_gives_empty_pool() {
    let mut dealer = KanjiDealer::with_seed(catalog(10), 4);
    let mut config = config_with_max(0);
    dealer.update_kanji_pool_at(&mut config, 1_000);
    assert!(dealer.kanji_pool.is_empty());
}

#[test]
fn learned_items_leave_the_pool() {
    let mut dealer = KanjiDealer::with_seed(catalog(10), 5);
    dealer.kanji_pool = vec!['一', '二', '三'];
    let mut config = config_with_max(5);
    config.answer_statistics.insert('二', stat(5, 1_000, 300));
    config.answer_statistics.insert('三', stat(4, 1_000, 300));
    dealer.update_kanji_pool_at(&mut config, 1_000);
    assert_eq!(dealer.kanji_pool, vec!['一', '三']);
}

#[test]
fn settled_pool_is_left_unchanged() {
    let mut dealer = KanjiDealer::with_seed(catalog(10), 6);
    dealer.kanji_pool = vec!['三', '一'];
    let mut config = config_with_max(5);
    config.answer_statistics.insert('一', stat(2, 0, 300));
    let before = config.answer_statistics.get('一');
    dealer.update_kanji_pool_at(&mut config, 100_000);
    assert_eq!(dealer.kanji_pool, vec!['三', '一']);
    assert_eq!(config.answer_statistics.get('一'), before);
}

#[test]
fn history_seeds_an_empty_pool() {
    let mut dealer = KanjiDealer::with_seed(catalog(10), 7);
    let mut config = config_with_max(2);
    config.answer_statistics.insert('五', stat(1, 1_000, 300));
    config.answer_statistics.insert('六', stat(2, 1_000, 300));
    config.answer_statistics.insert('七', stat(3, 1_000, 300));
    dealer.update_kanji_pool_at(&mut config, 1_000);
    assert_eq!(dealer.kanji_pool, vec!['五', '六']);
}

#[test]
fn elapsed_review_readmits_learned_item_halved() {
    let now: u64 = 1_000_000;
    let mut dealer = KanjiDealer::with_seed(catalog(10), 8);
    let mut config = config_with_max(5);
    config.answer_statistics.insert('二', stat(7, now - 600, 300));
    dealer.update_kanji_pool_at(&mut config, now);
    assert!(dealer.kanji_pool.contains(&'二'));
    assert_eq!(config.answer_statistics.get('二'), Some(stat(3, now - 600, 300)));
    assert_eq!(dealer.kanji_pool.len(), 5);
}

#[test]
fn elapsed_review_readmits_with_real_clock() {
    let now = std::time::SystemTime::now()
        .duration_since(std::time::UNIX_EPOCH)
        .unwrap()
        .as_secs();
    let mut dealer = KanjiDealer::with_seed(catalog(10), 9);
    let mut config = config_with_max(5);
    config.answer_statistics.insert('四', stat(6, now - 600, 300));
    dealer.update_kanji_pool(&mut config);
    assert!(dealer.kanji_pool.contains(&'四'));
    assert_eq!(config.answer_statistics.get('四').unwrap().learning_index, 3);
}

#[test]
fn demotion_rounds_negative_index_down() {
    let mut dealer = KanjiDealer::with_seed(catalog(2), 10);
    let mut config = config_with_max(1);
    config.answer_statistics.insert('一', stat(5, 1_000, 300));
    config.answer_statistics.insert('二', stat(-3, 0, 10));
    dealer.update_kanji_pool_at(&mut config, 1_100);
    assert_eq!(dealer.kanji_pool, vec!['二']);
    assert_eq!(config.answer_statistics.get('二').unwrap().learning_index, -2);
    assert_eq!(config.answer_statistics.get('一'), Some(stat(5, 1_000, 300)));
}

#[test]
fn pool_not_yet_due_and_learned_stays_empty() {
    let mut dealer = KanjiDealer::with_seed(catalog(2), 11);
    let mut config = config_with_max(3);
    config.answer_statistics.insert('一', stat(5, 1_000, 300));
    config.answer_statistics.insert('二', stat(9, 1_000, 300));
    dealer.update_kanji_pool_at(&mut config, 1_100);
    assert!(dealer.kanji_pool.is_empty());
}

#[test]
fn pool_nonempty_when_unseen_items_exist() {
    let mut dealer = KanjiDealer::with_seed(catalog(6), 12);
    let mut config = config_with_max(3);
    for c in &KANJI[..5] {
        config.answer_statistics.insert(*c, stat(5, 1_000, 300));
    }
    dealer.update_kanji_pool_at(&mut config, 1_100);
    assert_eq!(dealer.kanji_pool, vec!['六']);
}

fn check_deal(dealer: &KanjiDealer, ci: u8, cands: &[usize]) {
    assert_eq!(cands.len(), 4);
    assert!(ci < 4);
    let ids: Vec<u32> = cands.iter().map(|i| dealer.kanjis[*i].id).collect();
    let mut sorted = ids.clone();
    sorted.sort();
    sorted.dedup();
    assert_eq!(sorted.len(), 4);
    assert_eq!(dealer.kanjis[cands[ci as usize]].kanji, dealer.last_dealt_kanji);
}

#[test]
fn single_item_pool_deals_four_distinct_items() {
    let mut dealer = KanjiDealer::with_seed(catalog(10), 13);
    dealer.kanji_pool = vec!['三'];
    let mut config = config_with_max(5);
    let (ci, cands) = dealer.deal_kanji_candidates(&mut config).unwrap();
    check_deal(&dealer, ci, &cands);
    assert_eq!(dealer.last_dealt_kanji, '三');
    assert_eq!(dealer.kanjis[cands[ci as usize]].id, 3);
}

#[test]
fn deals_from_full_pool_are_valid() {
    let mut dealer = KanjiDealer::with_seed(catalog(12), 14);
    let mut config = config_with_max(6);
    dealer.update_kanji_pool_at(&mut config, 1_000);
    for _ in 0..50 {
        let (ci, cands) = dealer.deal_kanji_candidates_at(&mut config, 2_000).unwrap();
        check_deal(&dealer, ci, &cands);
        assert!(dealer.kanji_pool.contains(&dealer.last_dealt_kanji));
    }
}

#[test]
fn deal_never_repeats_last_kanji() {
    let mut dealer = KanjiDealer::with_seed(catalog(8), 15);
    dealer.kanji_pool = vec!['一', '二'];
    let mut config = config_with_max(5);
    let mut last = '-';
    for _ in 0..20 {
        let (ci, cands) = dealer.deal_kanji_candidates_at(&mut config, 5).unwrap();
        check_deal(&dealer, ci, &cands);
        assert_ne!(dealer.last_dealt_kanji, last);
        last = dealer.last_dealt_kanji;
    }
}

#[test]
fn deal_marks_tracked_item_reviewed() {
    let mut dealer = KanjiDealer::with_seed(catalog(6), 16);
    dealer.kanji_pool = vec!['二'];
    let mut config = config_with_max(5);
    config.answer_statistics.insert('二', stat(1, 10, 300));
    dealer.deal_kanji_candidates_at(&mut config, 777).unwrap();
    assert_eq!(config.answer_statistics.get('二'), Some(stat(1, 777, 300)));
}

#[test]
fn deal_does_not_create_records() {
    let mut dealer = KanjiDealer::with_seed(catalog(6), 17);
    dealer.kanji_pool = vec!['二'];
    let mut config = config_with_max(5);
    dealer.deal_kanji_candidates_at(&mut config, 777).unwrap();
    assert!(config.answer_statistics.is_empty());
}

#[test]
fn deal_from_empty_pool_fails() {
    let mut dealer = KanjiDealer::with_seed(catalog(6), 18);
    let mut config = config_with_max(5);
    assert_eq!(dealer.deal_kanji_candidates(&mut config), Err(DealError::EmptyPool));
}

#[test]
fn deal_of_unknown_kanji_fails() {
    let mut dealer = KanjiDealer::with_seed(catalog(6), 19);
    dealer.kanji_pool = vec!['龍'];
    let mut config = config_with_max(5);
    assert_eq!(dealer.deal_kanji_candidates(&mut config), Err(DealError::UnknownKanji));
}

#[test]
fn deal_from_tiny_catalog_fails() {
    let mut dealer = KanjiDealer::with_seed(catalog(3), 20);
    dealer.kanji_pool = vec!['一', '二'];
    let mut config = config_with_max(5);
    assert_eq!(dealer.deal_kanji_candidates(&mut config), Err(DealError::CatalogInsufficient));
    assert_eq!(dealer.last_dealt_kanji, '-');
}

#[test]
fn deal_from_catalog_of_four_succeeds() {
    let mut dealer = KanjiDealer::with_seed(catalog(4), 21);
    dealer.kanji_pool = vec!['四'];
    let mut config = config_with_max(5);
    let (ci, cands) = dealer.deal_kanji_candidates(&mut config).unwrap();
    check_deal(&dealer, ci, &cands);
}

#[test]
fn duplicate_identities_do_not_count_twice() {
    let mut kanjis = catalog(3);
    kanjis.push(record(2, '万'));
    let mut dealer = KanjiDealer::with_seed(kanjis, 22);
    dealer.kanji_pool = vec!['一'];
    let mut config = config_with_max(5);
    assert_eq!(dealer.deal_kanji_candidates(&mut config), Err(DealError::CatalogInsufficient));
}

#[test]
fn find_record_by_char_returns_first_match() {
    let mut kanjis = catalog(3);
    kanjis.push(record(40, '二'));
    let dealer = KanjiDealer::new(kanjis);
    assert_eq!(dealer.find_record_by_char('二'), Some(1));
    assert_eq!(dealer.find_record_by_char('龍'), None);
    assert!(dealer.kanji_pool.is_empty());
    assert_eq!(dealer.last_dealt_kanji, '-');
}

#[test]
fn refill_reaches_bound_despite_repeated_kanji() {
    let mut kanjis = catalog(10);
    kanjis.push(record(11, '一'));
    kanjis.push(record(12, '二'));
    let mut dealer = KanjiDealer::with_seed(kanjis, 23);
    let mut config = config_with_max(10);
    dealer.update_kanji_pool_at(&mut config, 1_000);
    assert_eq!(dealer.kanji_pool.len(), 10);
    assert!(distinct(&dealer.kanji_pool));
}

#[test]
fn learned_pool_is_refilled_to_bound() {
    let mut dealer = KanjiDealer::with_seed(catalog(10), 24);
    dealer.kanji_pool = vec!['一', '二'];
    let mut config = config_with_max(4);
    config.answer_statistics.insert('一', stat(5, 1_000, 300));
    config.answer_statistics.insert('二', stat(6, 1_000, 300));
    dealer.update_kanji_pool_at(&mut config, 1_100);
    assert_eq!(dealer.kanji_pool.len(), 4);
    assert!(!dealer.kanji_pool.contains(&'一'));
    assert!(!dealer.kanji_pool.contains(&'二'));
}

#[test]
fn wrong_answers_come_from_the_pool_first() {
    let mut dealer = KanjiDealer::with_seed(catalog(12), 25);
    dealer.kanji_pool = vec!['一', '二', '三', '四', '五'];
    let mut config = config_with_max(5);
    for _ in 0..30 {
        let (ci, cands) = dealer.deal_kanji_candidates_at(&mut config, 1).unwrap();
        check_deal(&dealer, ci, &cands);
        for c in &cands {
            assert!(dealer.kanji_pool.contains(&dealer.kanjis[*c].kanji));
        }
    }
}

#[test]
fn small_pool_is_topped_up_from_catalog() {
    let mut dealer = KanjiDealer::with_seed(catalog(12), 26);
    dealer.kanji_pool = vec!['一', '二'];
    let mut config = config_with_max(5);
    for _ in 0..10 {
        let (ci, cands) = dealer.deal_kanji_candidates_at(&mut config, 1).unwrap();
        check_deal(&dealer, ci, &cands);
        let other = if dealer.last_dealt_kanji == '一' { '二' } else { '一' };
        assert!(cands.iter().any(|c| dealer.kanjis[*c].kanji == other));
    }
}

#[test]
fn unlearned_records_refill_when_nothing_else_can() {
    let mut dealer = KanjiDealer::with_seed(catalog(3), 27);
    let mut config = config_with_max(1);
    config.answer_statistics.insert('一', stat(5, 1_000, 300));
    config.answer_statistics.insert('二', stat(0, 1_000, 300));
    config.answer_statistics.insert('三', stat(0, 1_000, 300));
    dealer.update_kanji_pool_at(&mut config, 1_100);
    assert_eq!(dealer.kanji_pool, vec!['二']);
    assert_eq!(config.answer_statistics.get('二'), Some(stat(0, 1_000, 300)));
}

#[test]
fn due_records_enter_before_unseen_kanji() {
    let now: u64 = 50_000;
    let mut dealer = KanjiDealer::with_seed(catalog(10), 28);
    let mut config = config_with_max(2);
    config.answer_statistics.insert('九', stat(8, now - 1_000, 10));
    config.answer_statistics.insert('十', stat(6, now - 1_000, 10));
    dealer.update_kanji_pool_at(&mut config, now);
    assert_eq!(dealer.kanji_pool, vec!['九', '十']);
    assert_eq!(config.answer_statistics.get('九').unwrap().learning_index, 4);
    assert_eq!(config.answer_statistics.get('十').unwrap().learning_index, 3);
}
