//! Sequential access to a byte buffer in fixed-size records.
use vstd::prelude::*;

verus! {

/// Width of every header record.
pub const RECORD_LEN: usize = 80;

/// Signals that fewer bytes remain than were asked for.
#[derive(PartialEq, Eq, Structural, Clone, Copy, Debug)]
pub struct Exhausted;

/// A cursor over a byte buffer.
pub struct RecordReader<'a> {
    pub data: &'a [u8],
    pub pos: usize,
}

/// Whether `data` holds `m` starting at `pos`.
pub open spec fn has_at(data: Seq<u8>, pos: int, m: Seq<u8>) -> bool {
    0 <= pos && pos + m.len() <= data.len() && data.subrange(pos, pos + m.len()) == m
}

/// Exec form of `has_at`.
pub fn bytes_at(data: &[u8], pos: usize, m: &[u8]) -> (r: bool)
    ensures
        r == has_at(data@, pos as int, m@),
{
    if pos > data.len() || m.len() > data.len() - pos {
        return false;
    }
    let mut i: usize = 0;
    while i < m.len()
        invariant
            pos + m@.len() <= data@.len(),
            data@.len() <= usize::MAX,
            i <= m@.len(),
            forall|k: int| 0 <= k < i ==> data@[pos + k] == m@[k],
        decreases m@.len() - i,
    {
        if data[pos + i] != m[i] {
            assert(data@.subrange(pos as int, pos + m@.len())[i as int] != m@[i as int]);
            return false;
        }
        i = i + 1;
    }
    assert(data@.subrange(pos as int, pos + m@.len()) =~= m@);
    true
}

impl<'a> RecordReader<'a> {
    pub fn new(data: &'a [u8]) -> (r: RecordReader<'a>)
        ensures
            r.data@ == data@,
            r.pos == 0,
    {
        RecordReader { data, pos: 0 }
    }

    /// Takes the next `n` bytes, or fails when fewer remain.
    pub fn next(&mut self, n: usize) -> (r: Result<&'a [u8], Exhausted>)
        requires
            old(self).pos <= old(self).data@.len(),
        ensures
            final(self).data@ == old(self).data@,
            final(self).pos <= final(self).data@.len(),
            old(self).pos + n <= old(self).data@.len() ==> (r.is_ok() && r.unwrap()@
                == old(self).data@.subrange(old(self).pos as int, old(self).pos + n)
                && final(self).pos == old(self).pos + n),
            old(self).pos + n > old(self).data@.len() ==> (r.is_err() && final(self).pos
                == old(self).pos),
    {
        if n > self.data.len() - self.pos {
            return Err(Exhausted);
        }
        let start = self.pos;
        self.pos = self.pos + n;
        Ok(vstd::slice::slice_subrange(self.data, start, start + n))
    }

    /// Whether the next record starts with `marker`.
    pub fn peek_matches(&self, marker: &[u8]) -> (r: bool)
        requires
            marker@.len() <= RECORD_LEN,
        ensures
            r == (self.pos + RECORD_LEN <= self.data@.len() && has_at(
                self.data@,
                self.pos as int,
                marker@,
            )),
    {
        if self.pos > self.data.len() || RECORD_LEN > self.data.len() - self.pos {
            return false;
        }
        bytes_at(self.data, self.pos, marker)
    }
}

/// Pad bytes of a fixed-width text field: space and NUL.
pub open spec fn is_pad(c: u8) -> bool {
    c == 32 || c == 0
}

/// A field with its trailing pad removed.
pub open spec fn trim_end(s: Seq<u8>) -> Seq<u8>
    decreases s.len(),
{
    if s.len() > 0 && is_pad(s.last()) {
        trim_end(s.drop_last())
    } else {
        s
    }
}

/// Copies `data[start..end]` without its trailing pad.
pub fn trimmed_field(data: &[u8], start: usize, end: usize) -> (r: Vec<u8>)
    requires
        start <= end <= data@.len(),
    ensures
        r@ == trim_end(data@.subrange(start as int, end as int)),
{
    let mut j = end;
    while j > start && (data[j - 1] == 32 || data[j - 1] == 0)
        invariant
            start <= j <= end <= data@.len(),
            trim_end(data@.subrange(start as int, end as int)) == trim_end(
                data@.subrange(start as int, j as int),
            ),
        decreases j,
    {
        assert(data@.subrange(start as int, j as int).drop_last() =~= data@.subrange(
            start as int,
            j - 1,
        ));
        j = j - 1;
    }
    let mut r: Vec<u8> = Vec::new();
    let mut i = start;
    while i < j
        invariant
            start <= i <= j <= data@.len(),
            r@ =~= data@.subrange(start as int, i as int),
        decreases j - i,
    {
        r.push(data[i]);
        i = i + 1;
    }
    r
}

/// Value of a big-endian 16-bit field.
pub fn read_u16_be(data: &[u8], pos: usize) -> (r: usize)
    requires
        pos + 2 <= data@.len(),
    ensures
        r as nat == crate::ibm::be_value(data@.subrange(pos as int, pos + 2)),
        r < 65536,
{
    let ghost s = data@.subrange(pos as int, pos + 2);
    assert(s.drop_last().drop_last() =~= Seq::<u8>::empty());
    assert(s.drop_last() =~= seq![data@[pos as int]]);
    reveal_with_fuel(crate::ibm::be_value, 3);
    data[pos] as usize * 256 + data[pos + 1] as usize
}

/// Whether every byte is an ASCII decimal digit.
pub open spec fn all_digits(s: Seq<u8>) -> bool {
    forall|i: int| 0 <= i < s.len() ==> 48 <= #[trigger] s[i] <= 57
}

/// Value of a run of ASCII decimal digits.
pub open spec fn decimal_value(s: Seq<u8>) -> nat
    decreases s.len(),
{
    if s.len() == 0 {
        0
    } else {
        decimal_value(s.drop_last()) * 10 + (s.last() - 48) as nat
    }
}

/// Reads a four-digit decimal field, if it holds only digits.
pub fn read_decimal4(data: &[u8], pos: usize) -> (r: Option<usize>)
    requires
        pos + 4 <= data@.len(),
    ensures
        r.is_some() == all_digits(data@.subrange(pos as int, pos + 4)),
        r.is_some() ==> r.unwrap() as nat == decimal_value(data@.subrange(pos as int, pos + 4)),
        r.is_some() ==> r.unwrap() < 10000,
{
    let mut v: usize = 0;
    let mut i: usize = 0;
    let len = data.len();
    assert(len == data@.len());
    while i < 4
        invariant
            pos + 4 <= data@.len(),
            i <= 4,
            all_digits(data@.subrange(pos as int, pos + i)),
            v as nat == decimal_value(data@.subrange(pos as int, pos + i)),
            data@.len() <= usize::MAX,
            i == 0 ==> v == 0,
            i == 1 ==> v < 10,
            i == 2 ==> v < 100,
            i == 3 ==> v < 1000,
            i == 4 ==> v < 10000,
        decreases 4 - i,
    {
        let c = data[pos + i];
        if c < 48 || c > 57 {
            assert(data@.subrange(pos as int, pos + 4)[i as int] == c);
            return None;
        }
        assert(data@.subrange(pos as int, pos + i + 1).drop_last() =~= data@.subrange(
            pos as int,
            pos + i,
        ));
        v = v * 10 + (c - 48) as usize;
        i = i + 1;
    }
    assert(data@.subrange(pos as int, pos + 4) =~= data@.subrange(pos as int, pos + i));
    Some(v)
}

} // verus!
