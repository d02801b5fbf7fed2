use scheduler::chunks::{render_chunks, MAX_CHUNK_CHARS};

fn lines_of(sizes: &[usize]) -> Vec<String> {
    sizes.iter().enumerate().map(|(i, n)| format!("{}", i % 10).repeat(*n)).collect()
}

fn with_breaks(lines: &[String]) -> String {
    lines.iter().map(|line| format!("{}\n", line)).collect()
}

#[test]
fn no_lines_no_chunks() {
    let chunks = render_chunks(&vec![], MAX_CHUNK_CHARS);
    assert!(chunks.is_empty());
}

#[test]
fn short_lines_share_a_chunk() {
    let lines = vec!["one".to_string(), "two".to_string(), "three".to_string()];
    let chunks = render_chunks(&lines, MAX_CHUNK_CHARS);
    assert_eq!(chunks, vec!["one\ntwo\nthree\n".to_string()]);
}

#[test]
fn every_line_is_followed_by_a_line_break() {
    let lines = vec!["only".to_string()];
    assert_eq!(render_chunks(&lines, MAX_CHUNK_CHARS), vec!["only\n".to_string()]);
}

#[test]
fn a_chunk_ends_before_it_would_reach_the_limit() {
    // With a limit of 10: "aaaa" and "bbb" with their breaks make 9 characters.
    let lines = vec!["aaaa".to_string(), "bbb".to_string(), "c".to_string()];
    assert_eq!(
        render_chunks(&lines, 10),
        vec!["aaaa\nbbb\n".to_string(), "c\n".to_string()]
    );
    // "aaaa" and "bbbb" with their breaks would make 10: the second starts a
    // new chunk.
    let lines = vec!["aaaa".to_string(), "bbbb".to_string(), "c".to_string()];
    assert_eq!(
        render_chunks(&lines, 10),
        vec!["aaaa\n".to_string(), "bbbb\nc\n".to_string()]
    );
}

#[test]
fn the_longest_line_stands_alone() {
    // A line of 1998 characters makes, with its break, a chunk of 1999.
    let lines = lines_of(&[1998, 1998, 0, 1]);
    let chunks = render_chunks(&lines, MAX_CHUNK_CHARS);
    assert_eq!(chunks.len(), 3);
    assert_eq!(chunks[0], format!("{}\n", lines[0]));
    assert_eq!(chunks[1], format!("{}\n", lines[1]));
    assert_eq!(chunks[0].len(), 1999);
    assert_eq!(chunks[1].len(), 1999);
    assert_eq!(chunks[2], "\n3\n");
}

#[test]
fn a_chunk_and_a_line_of_1999_characters_together_are_parted() {
    // 1000 and 998 characters with their breaks make 2000: two chunks.
    let lines = lines_of(&[1000, 998]);
    let chunks = render_chunks(&lines, MAX_CHUNK_CHARS);
    assert_eq!(chunks.len(), 2);
    assert_eq!(chunks[0].len() + lines[1].len(), 1999);
    // 1000 and 997 characters with their breaks make 1999: one chunk.
    let lines = lines_of(&[1000, 997]);
    let chunks = render_chunks(&lines, MAX_CHUNK_CHARS);
    assert_eq!(chunks.len(), 1);
    assert_eq!(chunks[0].len(), 1999);
}

#[test]
fn empty_lines_are_kept() {
    let lines = vec!["".to_string(), "".to_string(), "x".to_string()];
    assert_eq!(render_chunks(&lines, 10), vec!["\n\nx\n".to_string()]);
    let lines = vec!["".to_string()];
    assert_eq!(render_chunks(&lines, 10), vec!["\n".to_string()]);
}

#[test]
fn chunks_stay_below_the_limit_and_lose_nothing() {
    let sizes: Vec<usize> = (0..200).map(|i| (i * 37) % 450).collect();
    let lines = lines_of(&sizes);
    for max in [451, 500, 1000, MAX_CHUNK_CHARS] {
        let chunks = render_chunks(&lines, max);
        for chunk in chunks.iter() {
            assert!(chunk.chars().count() < max);
            assert!(chunk.ends_with('\n'));
        }
        assert_eq!(chunks.concat(), with_breaks(&lines));
        // Each chunk but the last could not have taken the next line and
        // its break.
        for pair in chunks.windows(2) {
            let next = pair[1].split('\n').next().unwrap();
            assert!(pair[0].chars().count() + next.chars().count() + 1 >= max);
        }
    }
}

#[test]
fn packing_again_gives_the_same_chunks() {
    let sizes: Vec<usize> = (0..100).map(|i| (i * 91) % 700).collect();
    let lines = lines_of(&sizes);
    let first = render_chunks(&lines, MAX_CHUNK_CHARS);
    let second = render_chunks(&lines, MAX_CHUNK_CHARS);
    assert_eq!(first, second);
}

#[test]
fn characters_are_counted_not_bytes() {
    let line = "\u{e9}\u{e9}\u{e9}\u{e9}".to_string();
    let lines = vec![line.clone(), line.clone()];
    // Ten characters, and eighteen bytes: below a limit of eleven.
    assert_eq!(render_chunks(&lines, 11), vec![format!("{}\n{}\n", line, line)]);
    assert_eq!(render_chunks(&lines, 10), vec![format!("{}\n", line), format!("{}\n", line)]);
}
