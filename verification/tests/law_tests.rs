//! The laws of the library, tried on many values.

use kvadminer::handlers::{page_bounds, total_pages};
use kvadminer::redis_ops::{parse_field_pairs, ranked_elements, render_pairs};
use kvadminer::text::{join_strings, split_trimmed, trim_str};

/// A small generator of numbers that gives the same numbers on every run.
struct Numbers(u64);

impl Numbers {
    fn next(&mut self, below: u64) -> u64 {
        self.0 = self.0.wrapping_mul(6364136223846793005).wrapping_add(1442695040888963407);
        (self.0 >> 33) % below
    }

    fn text(&mut self, alphabet: &[char], longest: u64) -> String {
        let length = self.next(longest + 1);
        (0..length).map(|_| alphabet[self.next(alphabet.len() as u64) as usize]).collect()
    }
}

const ALPHABET: [char; 8] = ['a', 'b', ' ', ',', ':', '\t', 'é', '\u{3000}'];

#[test]
fn elements_of_a_value_survive_rendering() {
    let mut numbers = Numbers(1);
    for _ in 0..2000 {
        let value = numbers.text(&ALPHABET, 12);
        let elements = split_trimmed(&value, ',');
        let rendered = join_strings(&elements, ", ");
        assert_eq!(split_trimmed(&rendered, ','), elements, "value {:?}", value);
    }
}

#[test]
fn fields_of_a_value_survive_rendering() {
    let mut numbers = Numbers(2);
    for _ in 0..2000 {
        let value = numbers.text(&ALPHABET, 12);
        let pairs = parse_field_pairs(&value);
        let rendered = render_pairs(&pairs);
        assert_eq!(parse_field_pairs(&rendered), pairs, "value {:?}", value);
    }
}

#[test]
fn elements_are_trimmed_and_hold_no_comma() {
    let mut numbers = Numbers(3);
    for _ in 0..2000 {
        let value = numbers.text(&ALPHABET, 12);
        let elements = split_trimmed(&value, ',');
        assert_eq!(elements.len(), value.matches(',').count() + 1);
        for element in elements {
            assert!(!element.contains(','));
            assert_eq!(trim_str(&element), element);
            assert_eq!(element.trim(), element);
        }
    }
}

#[test]
fn ranks_are_the_positions() {
    let mut numbers = Numbers(4);
    for _ in 0..500 {
        let value = numbers.text(&ALPHABET, 12);
        let elements = split_trimmed(&value, ',');
        let ranked = ranked_elements(&value);
        assert_eq!(ranked.len(), elements.len());
        for (position, (rank, member)) in ranked.iter().enumerate() {
            assert_eq!(*rank, position as u64);
            assert_eq!(member, &elements[position]);
        }
    }
}

#[test]
fn pages_lie_one_behind_the_other_and_cover_the_keys() {
    for total in 0..40usize {
        for page_size in 1..9usize {
            let pages = total_pages(total, page_size);
            assert_eq!(pages, (total + page_size - 1) / page_size);
            let mut covered = 0;
            for page in 0..pages + 3 {
                let (start, end) = page_bounds(total, page, page_size);
                assert_eq!(start, covered);
                assert!(end - start <= page_size);
                assert_eq!(start < end, page < pages);
                if page + 1 < pages {
                    assert_eq!(end - start, page_size);
                }
                covered = end;
            }
            assert_eq!(covered, total);
        }
    }
}
