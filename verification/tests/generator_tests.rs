use tetris::block::MinoType;
use tetris::generator::RandomGenerator;

const ALL: [MinoType; 7] = [
    MinoType::MinoI,
    MinoType::MinoO,
    MinoType::MinoS,
    MinoType::MinoZ,
    MinoType::MinoJ,
    MinoType::MinoL,
    MinoType::MinoT,
];

fn is_bag(s: &[MinoType]) -> bool {
    s.len() == 7 && ALL.iter().all(|t| s.iter().filter(|x| *x == t).count() == 1)
}

#[test]
fn starts_empty() {
    let g = RandomGenerator::default();
    assert_eq!(g.get_size_generated(), 0);
    assert_eq!(g.min_items, 20);
}

#[test]
fn generate_adds_whole_bags() {
    let mut g = RandomGenerator::default();
    g.generate(1);
    assert_eq!(g.get_size_generated(), 7);
    assert!(is_bag(&g.stock));
    g.generate(7);
    assert_eq!(g.get_size_generated(), 7);
    g.generate(8);
    assert_eq!(g.get_size_generated(), 14);
    assert!(is_bag(&g.stock[7..14]));
    g.generate(0);
    assert_eq!(g.get_size_generated(), 14);
}

#[test]
fn items_are_a_preview() {
    let mut g = RandomGenerator::default();
    let items = g.get_items(7);
    assert_eq!(items.len(), 7);
    assert!(is_bag(&items));
    assert_eq!(items, g.stock[0..7].to_vec());
    let again = g.get_items(5);
    assert_eq!(again, items[0..5].to_vec());
    assert_eq!(g.get_size_generated(), 7);
}

#[test]
fn next_deals_in_bags() {
    let mut g = RandomGenerator::default();
    let mut dealt = Vec::new();
    for _ in 0..70 {
        dealt.push(g.next().unwrap());
        assert!(g.get_size_generated() >= 19);
        assert!(g.get_size_generated() < 26);
    }
    for k in 0..10 {
        assert!(is_bag(&dealt[7 * k..7 * k + 7]));
    }
}

#[test]
fn next_deals_the_front_of_the_stock() {
    let mut g = RandomGenerator::default();
    g.stock = ALL.to_vec();
    g.stock.extend(ALL.iter().rev().cloned());
    g.stock.extend(ALL.iter().cloned());
    assert_eq!(g.get_size_generated(), 21);
    assert_eq!(g.next(), Some(MinoType::MinoI));
    assert_eq!(g.next(), Some(MinoType::MinoO));
    assert_eq!(g.get_size_generated(), 19);
    assert_eq!(g.next(), Some(MinoType::MinoS));
    assert_eq!(g.get_size_generated(), 25);
}

#[test]
fn bags_are_shuffled() {
    let mut g = RandomGenerator::default();
    g.generate(70);
    let in_order = (0..10).filter(|k| g.stock[7 * k..7 * k + 7] == ALL[..]).count();
    assert!(in_order < 10);
}

#[test]
fn preview_is_the_dealt_order() {
    let mut g = RandomGenerator::default();
    let preview = g.get_items(12);
    for &p in preview.iter() {
        assert_eq!(g.next(), Some(p));
        assert!(g.get_size_generated() >= 19);
    }
}

#[test]
fn dealt_pieces_come_in_bags_with_previews_between() {
    let mut g = RandomGenerator::default();
    let mut dealt = Vec::new();
    for i in 0..63 {
        if i % 5 == 0 {
            let _ = g.get_items(30);
        }
        dealt.push(g.next().unwrap());
    }
    for k in 0..9 {
        assert!(is_bag(&dealt[7 * k..7 * k + 7]));
    }
}
