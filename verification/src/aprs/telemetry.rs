//! Telemetry: five analogue channels and eight bits, with a sequence number by
//! which a receiver tells a repeat from a new reading.
use crate::aprs::wire;
use crate::aprs::{AprsError, Fault};
use crate::decimal;
use crate::text;
use vstd::prelude::*;

verus! {

broadcast use vstd::seq::group_seq_axioms;

/// One telemetry report.
#[derive(Debug, Clone, PartialEq)]
pub struct Telemetry {
    /// The sequence number as it was sent.
    pub seq: String,
    /// The five analogue channels, unscaled, in millionths.
    pub analog: Vec<Option<i64>>,
    /// The eight bits.
    pub digital: Vec<bool>,
    pub comment: String,
}

/// A report as it is spoken of.
pub struct TelemetryView {
    pub seq: Seq<char>,
    pub analog: Seq<Option<i64>>,
    pub digital: Seq<bool>,
    pub comment: Seq<char>,
}

impl View for Telemetry {
    type V = TelemetryView;

    open spec fn view(&self) -> TelemetryView {
        TelemetryView {
            seq: self.seq@,
            analog: self.analog@,
            digital: self.digital@,
            comment: self.comment@,
        }
    }
}

/// The number of one channel: what is not there or not a number is no reading.
pub open spec fn channel(parts: Seq<Seq<char>>, i: int) -> Option<i64> {
    if i < parts.len() {
        match decimal::fixed_of(text::trim(parts[i]), 6) {
            Some(n) => Some(n as i64),
            None => None,
        }
    } else {
        None
    }
}

/// How many bits a text starts with, eight at most.
pub open spec fn bit_count(s: Seq<char>, i: int) -> int
    decreases 8 - i,
{
    if i < 8 && i < s.len() && (s[i] == '0' || s[i] == '1') {
        bit_count(s, i + 1)
    } else {
        i
    }
}

/// The piece with the bits, empty where there is none.
pub open spec fn bits_piece(parts: Seq<Seq<char>>) -> Seq<char> {
    if parts.len() > 6 {
        parts[6]
    } else {
        Seq::empty()
    }
}

/// Pieces with commas between them.
pub open spec fn joined(parts: Seq<Seq<char>>) -> Seq<char>
    decreases parts.len(),
{
    if parts.len() == 0 {
        Seq::empty()
    } else if parts.len() == 1 {
        parts[0]
    } else {
        joined(parts.drop_last()) + seq![','] + parts.last()
    }
}

/// The comment: what is behind the bits in their piece, and the pieces behind
/// it.
pub open spec fn comment_of(parts: Seq<Seq<char>>) -> Seq<char> {
    let bits = bits_piece(parts);
    let k = bit_count(bits, 0);
    let near = if k < bits.len() {
        text::trim(bits.skip(k))
    } else {
        Seq::empty()
    };
    let all = if parts.len() > 7 {
        (if near.len() > 0 {
            near + seq![',']
        } else {
            near
        }) + joined(parts.skip(7))
    } else {
        near
    };
    text::trim(all)
}

/// A telemetry frame without its first byte: `#SSS,111,222,333,444,555,00000000`.
pub open spec fn reading(rest: Seq<u8>) -> Result<TelemetryView, Fault> {
    let s = wire::shown(rest);
    let t = if s.len() > 0 && s[0] == '#' {
        s.skip(1)
    } else {
        s
    };
    let parts = text::pieces(t, ',');
    let seq = text::trim(parts[0]);
    if seq.len() == 0 {
        Err(Fault::Malformed("telemetry sequence"@))
    } else {
        Ok(
            TelemetryView {
                seq,
                analog: Seq::new(5, |i: int| channel(parts, 1 + i)),
                digital: Seq::new(
                    8,
                    |i: int| i < bit_count(bits_piece(parts), 0) && bits_piece(parts)[i] == '1',
                ),
                comment: comment_of(parts),
            },
        )
    }
}

fn count_bits(s: &Vec<char>) -> (r: usize)
    ensures
        r == bit_count(s@, 0),
        r <= s@.len(),
        r <= 8,
{
    let mut i: usize = 0;
    while i < 8 && i < s.len() && (s[i] == '0' || s[i] == '1')
        invariant
            i <= 8,
            i <= s@.len(),
            bit_count(s@, 0) == bit_count(s@, i as int),
        decreases 8 - i,
    {
        i += 1;
    }
    i
}

fn join(parts: &Vec<Vec<char>>, from: usize) -> (r: Vec<char>)
    requires
        from < parts@.len(),
    ensures
        r@ == joined(text::views(parts@).skip(from as int)),
{
    let ghost all = text::views(parts@).skip(from as int);
    let mut out: Vec<char> = text::copy_chars(parts[from].as_slice(), 0, parts[from].len());
    assert(out@ =~= all[0]);
    let total: usize = parts.len();
    assert(from < total);
    let mut i: usize = from + 1;
    assert(all.take(1) =~= seq![all[0]]);
    while i < parts.len()
        invariant
            from < i <= parts@.len(),
            all == text::views(parts@).skip(from as int),
            out@ == joined(all.take(i - from)),
        decreases parts@.len() - i,
    {
        let mut next: Vec<char> = text::copy_chars(parts[i].as_slice(), 0, parts[i].len());
        let ghost before = out@;
        out.push(',');
        out.append(&mut next);
        proof {
            let n = i + 1 - from;
            assert(all.take(n).drop_last() =~= all.take(n - 1));
            assert(all.take(n).last() == parts@[i as int]@);
            assert(parts@[i as int]@.subrange(0, parts@[i as int]@.len() as int)
                =~= parts@[i as int]@);
            assert(out@ =~= before + seq![','] + parts@[i as int]@);
        }
        i += 1;
    }
    assert(all.take(all.len() as int) =~= all);
    out
}

fn read_comment(parts: &Vec<Vec<char>>, bits: &Vec<char>, k: usize) -> (r: Vec<char>)
    requires
        bits@ == bits_piece(text::views(parts@)),
        k == bit_count(bits@, 0),
        k <= bits@.len(),
    ensures
        r@ == comment_of(text::views(parts@)),
{
    let mut all: Vec<char> = Vec::new();
    if k < bits.len() {
        let tail: Vec<char> = text::copy_chars(bits.as_slice(), k, bits.len());
        assert(tail@ =~= bits@.skip(k as int));
        all = text::trim_chars(tail.as_slice());
    }
    let ghost near = all@;
    if parts.len() > 7 {
        let mut rest: Vec<char> = join(parts, 7);
        if all.len() > 0 {
            all.push(',');
        }
        all.append(&mut rest);
        assert(all@ =~= (if near.len() > 0 {
            near + seq![',']
        } else {
            near
        }) + joined(text::views(parts@).skip(7)));
    }
    text::trim_chars(all.as_slice())
}

/// Reads a telemetry frame without its first byte.
pub fn parse(rest: &[u8]) -> (r: Result<Telemetry, AprsError>)
    ensures
        match reading(rest@) {
            Ok(t) => r matches Ok(v) && v@ == t,
            Err(f) => r matches Err(e) && e@ == f,
        },
{
    let s: Vec<char> = wire::printable(rest);
    let from: usize = if s.len() > 0 && s[0] == '#' { 1 } else { 0 };
    let t: Vec<char> = text::copy_chars(s.as_slice(), from, s.len());
    assert(t@ =~= if from == 1 {
        s@.skip(1)
    } else {
        s@
    });
    let parts: Vec<Vec<char>> = text::split(t.as_slice(), ',');
    let ghost all = text::views(parts@);
    assert(all[0] == parts@[0]@);
    let seq: Vec<char> = text::trim_chars(parts[0].as_slice());
    if seq.len() == 0 {
        return Err(AprsError::Malformed("telemetry sequence"));
    }
    let mut analog: Vec<Option<i64>> = Vec::new();
    let mut i: usize = 0;
    while i < 5
        invariant
            i <= 5,
            all == text::views(parts@),
            analog@.len() == i,
            forall|k: int| 0 <= k < i ==> #[trigger] analog@[k] == channel(all, 1 + k),
        decreases 5 - i,
    {
        let v: Option<i64> = if 1 + i < parts.len() {
            assert(all[1 + i] == parts@[1 + i]@);
            let n: Vec<char> = text::trim_chars(parts[1 + i].as_slice());
            decimal::parse_fixed(n.as_slice(), 6)
        } else {
            None
        };
        analog.push(v);
        i += 1;
    }
    let bits: Vec<char> = if parts.len() > 6 {
        let b: Vec<char> = text::copy_chars(parts[6].as_slice(), 0, parts[6].len());
        assert(b@ =~= all[6]);
        b
    } else {
        Vec::new()
    };
    let k: usize = count_bits(&bits);
    let mut digital: Vec<bool> = Vec::new();
    let mut j: usize = 0;
    while j < 8
        invariant
            j <= 8,
            k <= bits@.len(),
            digital@.len() == j,
            forall|n: int| 0 <= n < j ==> #[trigger] digital@[n] == (n < k && bits@[n] == '1'),
        decreases 8 - j,
    {
        digital.push(j < k && bits[j] == '1');
        j += 1;
    }
    let comment: Vec<char> = read_comment(&parts, &bits, k);
    let report = Telemetry {
        seq: text::string_of(seq.as_slice()),
        analog,
        digital,
        comment: text::string_of(comment.as_slice()),
    };
    assert(report.analog@ =~= Seq::new(5, |i: int| channel(all, 1 + i)));
    assert(report.digital@ =~= Seq::new(
        8,
        |i: int| i < bit_count(bits_piece(all), 0) && bits_piece(all)[i] == '1',
    ));
    Ok(report)
}

} // verus!
