use skyward::replay::{Begin, PairAligner};
use skyward::source::SourceError;
use std::io::Read;

/// A reader that returns awkward, short, odd-sized chunks.
struct Dribble {
    data: Vec<u8>,
    pos: usize,
    pattern: Vec<usize>,
    step: usize,
}

impl Read for Dribble {
    fn read(&mut self, buf: &mut [u8]) -> std::io::Result<usize> {
        if self.pos >= self.data.len() {
            return Ok(0);
        }
        let want = self.pattern[self.step % self.pattern.len()];
        self.step += 1;
        let n = want.min(buf.len()).min(self.data.len() - self.pos);
        buf[..n].copy_from_slice(&self.data[self.pos..self.pos + n]);
        self.pos += n;
        Ok(n)
    }
}

/// A recording read through the aligner, the way a file source reads one.
struct Recording {
    inner: Dribble,
    aligner: PairAligner,
}

impl Recording {
    fn new(data: Vec<u8>, pattern: Vec<usize>) -> Recording {
        Recording { inner: Dribble { data, pos: 0, pattern, step: 0 }, aligner: PairAligner::new() }
    }

    fn read(&mut self, buf: &mut [u8]) -> Result<usize, SourceError> {
        let start = match self.aligner.begin(buf) {
            Begin::Ended => return Err(SourceError::EndOfStream),
            Begin::TooSmall => return Ok(0),
            Begin::Fill { start } => start,
        };
        let mut filled = start;
        loop {
            match self.inner.read(&mut buf[filled..]) {
                Ok(0) => {
                    if filled >= 2 {
                        break;
                    }
                    self.aligner.end();
                    return Err(SourceError::EndOfStream);
                }
                Ok(n) => {
                    filled += n;
                    if filled >= 2 {
                        break;
                    }
                }
                Err(e) => {
                    self.aligner.fail();
                    return Err(SourceError::Transient(format!("read failed: {e}")));
                }
            }
        }
        Ok(self.aligner.settle(buf, start, filled))
    }
}

fn drain(src: &mut Recording, chunk: usize) -> Vec<u8> {
    let mut out = Vec::new();
    let mut buf = vec![0u8; chunk];
    loop {
        match src.read(&mut buf) {
            Ok(0) => break,
            Ok(n) => {
                assert!(n.is_multiple_of(2), "returned an odd byte count: {n}");
                out.extend_from_slice(&buf[..n]);
            }
            Err(e) if e.is_end_of_stream() => break,
            Err(e) => panic!("unexpected {}", e.message()),
        }
    }
    out
}

fn ramp(n: usize) -> Vec<u8> {
    (0..n).map(|i| (i % 251) as u8).collect()
}

/// The bug this exists to not have.
#[test]
fn odd_length_reads_do_not_swap_i_and_q() {
    let data = ramp(1000);
    for pattern in [vec![1], vec![3], vec![7], vec![1, 3, 7, 2], vec![5, 1]] {
        let mut fs = Recording::new(data.clone(), pattern.clone());
        let got = drain(&mut fs, 64);
        assert_eq!(got, data, "pattern {pattern:?} corrupted the stream (I/Q swap)");
    }
}

#[test]
fn a_trailing_odd_byte_is_dropped_not_emitted() {
    // 1001 bytes cannot form 500.5 samples.
    let data = ramp(1001);
    let mut fs = Recording::new(data.clone(), vec![1001]);
    let got = drain(&mut fs, 4096);
    assert_eq!(got.len(), 1000);
    assert_eq!(got, data[..1000]);
}

#[test]
fn every_read_returns_an_even_count() {
    let data = ramp(777);
    for chunk in [2usize, 3, 5, 8, 101] {
        let mut fs = Recording::new(data.clone(), vec![3, 1, 9]);
        // drain() asserts evenness on every read.
        let got = drain(&mut fs, chunk);
        assert_eq!(got.len(), 776, "chunk {chunk}");
    }
}

#[test]
fn end_of_stream_is_reported_once_and_stays_reported() {
    let mut fs = Recording::new(ramp(4), vec![4]);
    let mut buf = [0u8; 16];
    assert_eq!(fs.read(&mut buf).unwrap(), 4);
    assert!(fs.read(&mut buf).unwrap_err().is_end_of_stream());
    assert!(fs.read(&mut buf).unwrap_err().is_end_of_stream());
}

#[test]
fn sample_count_tracks_bytes_delivered() {
    let mut fs = Recording::new(ramp(200), vec![200]);
    drain(&mut fs, 4096);
    assert_eq!(fs.aligner.samples_delivered(), 100);
}

#[test]
fn a_buffer_without_room_for_a_pair_reads_nothing() {
    let mut fs = Recording::new(ramp(10), vec![10]);
    let mut one = [0u8; 1];
    assert_eq!(fs.read(&mut one).unwrap(), 0);
    assert_eq!(drain(&mut fs, 4), ramp(10));
}

#[test]
fn the_held_byte_leads_the_next_read() {
    let mut a = PairAligner::new();
    let mut buf = [0u8; 8];
    assert_eq!(a.begin(&mut buf), Begin::Fill { start: 0 });
    buf[..5].copy_from_slice(&[1, 2, 3, 4, 5]);
    assert_eq!(a.settle(&buf, 0, 5), 4);
    let mut next = [0u8; 8];
    assert_eq!(a.begin(&mut next), Begin::Fill { start: 1 });
    assert_eq!(next[0], 5);
    a.end();
    assert_eq!(a.begin(&mut next), Begin::Ended);
}
