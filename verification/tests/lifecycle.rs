use guardian::lifecycle::{age, Dropout, Lived};
use guardian::sensor::{channel_counts, roll_dropout_length, roll_ghost_id, roll_ghost_life, Sensor};
use rand::rngs::StdRng;
use rand::SeedableRng;

#[test]
fn requested_dropout_lengths_hide_exactly_that_many_cycles_of_a_channel() {
    for len in 1..=3u32 {
        let mut d = Dropout::new();
        d.start(len);
        let mut hidden = if d.visible { 0 } else { 1 };
        loop {
            d.advance(false, 2);
            if d.visible {
                break;
            }
            hidden += 1;
        }
        assert_eq!(hidden, len);
    }
}

#[test]
fn an_in_progress_dropout_hides_exactly_its_remaining_cycles() {
    let mut d = Dropout { left: 2, visible: false };
    let mut visibility = Vec::new();
    for _ in 0..3 {
        // A start roll during a dropout in progress changes nothing.
        d.advance(true, 3);
        visibility.push(d.visible);
        if d.left == 0 {
            break;
        }
    }
    d.advance(false, 3);
    visibility.push(d.visible);
    assert_eq!(visibility, vec![false, false, true]);
}

#[test]
fn a_dropout_may_start_the_cycle_after_one_ends() {
    let mut d = Dropout::new();
    d.advance(true, 1);
    assert_eq!(d, Dropout { left: 0, visible: false });
    d.advance(true, 3);
    assert_eq!(d, Dropout { left: 2, visible: false });
    d.advance(false, 1);
    d.advance(false, 1);
    assert!(!d.visible);
    d.advance(false, 1);
    assert!(d.visible);
}

#[test]
fn ghost_life_n_is_observed_exactly_n_cycles_by_aging() {
    for life in 1..=2u32 {
        let mut ghosts = vec![Lived { item: 7u32, life_left: life }];
        let mut seen = 0;
        for _ in 0..10 {
            seen += ghosts.iter().filter(|g| g.item == 7).count() as u32;
            ghosts = age(ghosts);
        }
        assert_eq!(seen, life);
    }
}

#[test]
fn aging_keeps_order_and_drops_the_expired() {
    let ghosts = vec![
        Lived { item: 'a', life_left: 1 },
        Lived { item: 'b', life_left: 3 },
        Lived { item: 'c', life_left: 0 },
        Lived { item: 'd', life_left: 2 },
    ];
    let aged: Vec<(char, u32)> = age(ghosts).into_iter().map(|g| (g.item, g.life_left)).collect();
    assert_eq!(aged, vec![('b', 2), ('d', 1)]);
}

#[test]
fn channel_counts_split_a_cycle_by_sensor() {
    assert_eq!(channel_counts(&[]), (0, 0));
    assert_eq!(
        channel_counts(&[Sensor::Radar, Sensor::Camera, Sensor::Radar, Sensor::Radar]),
        (3, 1)
    );
    assert_eq!(channel_counts(&[Sensor::Camera; 4]), (0, 4));
}

#[test]
fn rolls_stay_within_their_ranges_and_repeat_under_a_seed() {
    let mut rng = StdRng::seed_from_u64(1234);
    let mut first = Vec::new();
    for _ in 0..500 {
        let len = roll_dropout_length(&mut rng);
        let id = roll_ghost_id(&mut rng);
        let life = roll_ghost_life(&mut rng);
        assert!((1..=3).contains(&len));
        assert!((1..=8).contains(&id));
        assert!((1..=2).contains(&life));
        first.push((len, id, life));
    }
    // Every value of each range comes up.
    for v in 1..=3 {
        assert!(first.iter().any(|r| r.0 == v));
    }
    for v in 1..=8 {
        assert!(first.iter().any(|r| r.1 == v));
    }
    let mut rng = StdRng::seed_from_u64(1234);
    let again: Vec<_> = (0..500)
        .map(|_| (roll_dropout_length(&mut rng), roll_ghost_id(&mut rng), roll_ghost_life(&mut rng)))
        .collect();
    assert_eq!(first, again);
}
