use edge_puzzle::crawler::Crawler;

#[test]
fn test_crawler_starts_at_first_cell() {
    let crawler = Crawler::new(4);
    assert_eq!(crawler.current(), Some((0, 0)));
    assert_eq!(crawler.step, Some((0, 0)));
}

#[test]
fn test_crawler_of_no_cells() {
    let mut crawler = Crawler::new(0);
    assert_eq!(crawler.current(), None);
    assert_eq!(crawler.next(), None);
    assert_eq!(crawler.current(), None);
}

#[test]
fn test_crawler_default() {
    let mut crawler = Crawler::default();
    assert_eq!(crawler.current(), None);
    assert_eq!(crawler.next(), None);
}

#[test]
fn test_crawler_single_cell() {
    let mut crawler = Crawler::new(1);
    assert_eq!(crawler.current(), Some((0, 0)));
    assert_eq!(crawler.next(), None);
    assert_eq!(crawler.next(), None);
}

#[test]
fn test_crawler_row_by_row() {
    let mut crawler = Crawler::new(3);
    let mut seen = vec![crawler.current().unwrap()];
    while let Some(step) = crawler.next() {
        assert_eq!(crawler.current(), Some(step));
        seen.push(step);
    }
    assert_eq!(
        seen,
        vec![
            (0, 0),
            (0, 1),
            (0, 2),
            (1, 0),
            (1, 1),
            (1, 2),
            (2, 0),
            (2, 1),
            (2, 2)
        ]
    );
    assert_eq!(crawler.current(), None);
    assert_eq!(crawler.next(), None);
}

#[test]
fn test_crawler_visits_each_cell_once() {
    let size: u8 = 16;
    let mut crawler = Crawler::new(size);
    let mut visits = vec![vec![0u32; size as usize]; size as usize];
    let mut count = 0;
    let mut step = crawler.current();
    while let Some((row, col)) = step {
        assert!(row < size && col < size);
        visits[row as usize][col as usize] += 1;
        count += 1;
        step = crawler.next();
    }
    assert_eq!(count, 256);
    for row in visits.iter() {
        for v in row.iter() {
            assert_eq!(*v, 1);
        }
    }
}

#[test]
fn test_crawler_copy_keeps_its_place() {
    let mut crawler = Crawler::new(2);
    crawler.next();
    let kept = crawler;
    crawler.next();
    assert_eq!(kept.current(), Some((0, 1)));
    assert_eq!(crawler.current(), Some((1, 0)));
}
