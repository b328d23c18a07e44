use taiko::{Rhythm, SimpleNote};

#[test]
fn test_single_note() {
    let notes = vec![
        SimpleNote::new(1000, 100, 1u16, 0u16),
        SimpleNote::new(1100, 100, 1u16, 1u16),
        SimpleNote::new(2000, 100, 1u16, 0u16),
        SimpleNote::new(2100, 100, 1u16, 1u16),
    ];

    let mut rhythm = Rhythm::new(notes);

    assert_eq!(rhythm.current_time(), 0);

    assert_eq!(rhythm.forward(500), vec![]);
    assert_eq!(rhythm.current_time(), 500);
    assert_eq!(rhythm.hit(0u16), None);

    assert_eq!(rhythm.forward(550), vec![]);
    assert_eq!(rhythm.current_time(), 1050);
    assert_eq!(rhythm.hit(1u16), None);
    assert_eq!(
        rhythm.hit(0u16),
        Some((SimpleNote::new(1000, 100, 0u16, 0u16), 50))
    );
    assert_eq!(rhythm.hit(0u16), None);

    assert_eq!(
        rhythm.forward(200),
        vec![SimpleNote::new(1100, 100, 1u16, 1u16)]
    );
    assert_eq!(rhythm.current_time(), 1250);
    assert_eq!(rhythm.hit(1u16), None);

    assert_eq!(
        rhythm.forward(2000),
        vec![
            SimpleNote::new(2000, 100, 1u16, 0u16),
            SimpleNote::new(2100, 100, 1u16, 1u16)
        ]
    );
}

#[test]
fn test_combo_note() {
    let notes = vec![
        SimpleNote::new(1000, 1000, 10u16, 0u16),
        SimpleNote::new(3000, 2000, u16::MAX, 1u16),
    ];

    let mut rhythm = Rhythm::new(notes);

    assert_eq!(rhythm.current_time(), 0);

    assert_eq!(rhythm.forward(1500), vec![]);
    assert_eq!(rhythm.current_time(), 1500);
    for i in 0..10 {
        assert_eq!(
            rhythm.hit(0u16),
            Some((
                SimpleNote::new(1000, 1000, 9 - i as u16, 0u16),
                500 + i as i64 * 10
            ))
        );
        assert_eq!(rhythm.forward(10), vec![]);
    }
    assert_eq!(rhythm.current_time(), 1600);
    assert_eq!(rhythm.hit(0u16), None);

    assert_eq!(rhythm.forward(3000), vec![]);
    assert_eq!(rhythm.current_time(), 4600);
    for i in 0..1000 {
        assert_eq!(
            rhythm.hit(1u16),
            Some((
                SimpleNote::new(3000, 2000, u16::MAX - 1 - i as u16, 1u16),
                1600
            ))
        );
    }
}
