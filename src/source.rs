//! The source of a circuit: a table of spectral lines.
use vstd::prelude::*;
use crate::algebra::Pulse;
use std::cmp::Ordering;

verus! {

/// A periodic tension given by its spectrum: pairs of a pulse and a complex
/// amplitude, in increasing order of pulse, each pulse once. Only the lines of
/// pulse zero or more are kept; those of negative pulse are their conjugates.
#[derive(Clone, Debug)]
pub struct Source<P, A> {
    /// The lines, in increasing order of pulse.
    pub voltages: Vec<(P, A)>,
}

impl<P: Pulse, A> Source<P, A> {
    /// A source with no line.
    pub fn new() -> (r: Self)
        ensures
            r.voltages@.len() == 0,
            Self::pulses_increase(r.voltages@),
    {
        Source { voltages: Vec::new() }
    }

    /// Sets the amplitude of the line at `index`.
    pub fn set_voltage(&mut self, index: usize, voltage: A) -> (r: &mut Self)
        requires
            index < old(self).voltages.len(),
        ensures
            *final(self) == *final(r),
            r.voltages@.len() == old(self).voltages@.len(),
            r.voltages@[index as int].1 == voltage,
            r.voltages@[index as int].0 == old(self).voltages@[index as int].0,
            Self::pulses_increase(old(self).voltages@) ==> Self::pulses_increase(r.voltages@),
            forall|k: int|
                0 <= k < r.voltages@.len() && k != index ==> #[trigger] r.voltages@[k]
                    == old(self).voltages@[k],
    {
        self.voltages[index].1 = voltage;
        assert(Self::pulses_increase(old(self).voltages@) ==> Self::pulses_increase(self.voltages@)) by {
            let lines = self.voltages@;
            if Self::pulses_increase(old(self).voltages@) {
                assert forall|i: int, j: int| 0 <= i < j < lines.len() implies (#[trigger] lines[i]).0.spec_compare(
                    (#[trigger] lines[j]).0,
                ) == Ordering::Less by {
                    assert(lines[i].0 == old(self).voltages@[i].0 && lines[j].0 == old(self).voltages@[j].0);
                }
            }
        }
        self
    }

    /// Removes the line at `index`.
    pub fn remove_pulse(&mut self, index: usize) -> (r: &mut Self)
        requires
            index < old(self).voltages.len(),
        ensures
            *final(self) == *final(r),
            r.voltages@ == old(self).voltages@.remove(index as int),
            Self::pulses_increase(old(self).voltages@) ==> Self::pulses_increase(r.voltages@),
    {
        self.voltages.remove(index);
        assert(Self::pulses_increase(old(self).voltages@) ==> Self::pulses_increase(self.voltages@)) by {
            let old_lines = old(self).voltages@;
            let lines = self.voltages@;
            if Self::pulses_increase(old_lines) {
                assert forall|i: int, j: int| 0 <= i < j < lines.len() implies (#[trigger] lines[i]).0.spec_compare(
                    (#[trigger] lines[j]).0,
                ) == Ordering::Less by {
                    let oi = if i < index { i } else { i + 1 };
                    let oj = if j < index { j } else { j + 1 };
                    assert(lines[i] == old_lines[oi] && lines[j] == old_lines[oj]);
                }
            }
        }
        self
    }

    /// Removes every line.
    pub fn clear(&mut self) -> (r: &mut Self)
        ensures
            *final(self) == *final(r),
            r.voltages@.len() == 0,
            Self::pulses_increase(r.voltages@),
    {
        self.voltages.clear();
        self
    }

    /// The lines, in increasing order of pulse.
    pub fn voltages(&self) -> (r: &Vec<(P, A)>)
        ensures
            r == &self.voltages,
    {
        &self.voltages
    }
}

impl<P: Pulse, A> Source<P, A> {
    /// Adds the line (`pulse`, `voltage`) at its place in the order of
    /// pulses: the amplitude of the first line whose pulse compares equal to
    /// `pulse`, found past the lines whose pulses compare less, becomes
    /// `voltage`; where none does, the line goes before the first line whose
    /// pulse compares greater, or last.
    pub fn add_pulse(&mut self, pulse: P, voltage: A) -> (r: &mut Self)
        ensures
            *final(self) == *final(r),
            ({
                let k = Self::place(old(self).voltages@, pulse);
                &&& 0 <= k <= old(self).voltages@.len()
                &&& forall|i: int|
                    0 <= i < k ==> (#[trigger] old(self).voltages@[i]).0.spec_compare(pulse) == Ordering::Less
                &&& if k < old(self).voltages@.len() && old(self).voltages@[k].0.spec_compare(pulse)
                    == Ordering::Equal {
                    r.voltages@ == old(self).voltages@.update(k, (old(self).voltages@[k].0, voltage))
                } else {
                    &&& k < old(self).voltages@.len() ==> old(self).voltages@[k].0.spec_compare(pulse)
                        == Ordering::Greater
                    &&& r.voltages@ == old(self).voltages@.insert(k, (pulse, voltage))
                }
            }),
            r.voltages@ == Self::added(old(self).voltages@, pulse, voltage),
            Self::pulses_increase(old(self).voltages@) && Self::pulses_ordered() ==> Self::pulses_increase(
                r.voltages@,
            ),
    {
        proof {
            if Self::pulses_increase(old(self).voltages@) && Self::pulses_ordered() {
                lemma_add_pulse_keeps_order(old(self).voltages@, pulse, voltage);
            }
        }
        let n = self.voltages.len();
        let mut k: usize = 0;
        let mut searching = true;
        while searching && k < n
            invariant
                k <= n,
                n == self.voltages.len(),
                self.voltages@ == old(self).voltages@,
                forall|i: int| 0 <= i < k ==> (#[trigger] old(self).voltages@[i]).0.spec_compare(pulse)
                    == Ordering::Less,
                Self::place(old(self).voltages@, pulse) == Self::place_from(old(self).voltages@, pulse, k as int),
                !searching ==> k < n && old(self).voltages@[k as int].0.spec_compare(pulse) == Ordering::Greater,
            decreases n - k + if searching { 1int } else { 0int },
        {
            match self.voltages[k].0.compare(&pulse) {
                Ordering::Less => {
                    k += 1;
                },
                Ordering::Equal => {
                    self.voltages[k].1 = voltage;
                    assert(self.voltages@ =~= old(self).voltages@.update(
                        k as int,
                        (old(self).voltages@[k as int].0, voltage),
                    ));
                    return self;
                },
                Ordering::Greater => {
                    searching = false;
                },
            }
        }
        self.voltages.insert(k, (pulse, voltage));
        self
    }

    /// The lines `lines` with the line (`pulse`, `voltage`) added: the
    /// amplitude replaced at the place of `pulse` where the pulse there
    /// compares equal, else the line inserted there.
    pub open spec fn added(lines: Seq<(P, A)>, pulse: P, voltage: A) -> Seq<(P, A)> {
        let k = Self::place(lines, pulse);
        if k < lines.len() && lines[k].0.spec_compare(pulse) == Ordering::Equal {
            lines.update(k, (lines[k].0, voltage))
        } else {
            lines.insert(k, (pulse, voltage))
        }
    }

    /// Whether the pulses of `lines` increase strictly.
    pub open spec fn pulses_increase(lines: Seq<(P, A)>) -> bool {
        forall|i: int, j: int|
            0 <= i < j < lines.len() ==> (#[trigger] lines[i]).0.spec_compare((#[trigger] lines[j]).0)
                == Ordering::Less
    }

    /// Whether pulses compare as a strict total order: `Greater` one way is
    /// `Less` the other way, and `Less` is transitive.
    pub open spec fn pulses_ordered() -> bool {
        &&& forall|x: P, y: P| #[trigger] x.spec_compare(y) == Ordering::Greater ==> y.spec_compare(x)
            == Ordering::Less
        &&& forall|x: P, y: P, z: P|
            #[trigger] x.spec_compare(y) == Ordering::Less && #[trigger] y.spec_compare(z) == Ordering::Less
                ==> x.spec_compare(z) == Ordering::Less
    }

    /// The place of `pulse` among `lines`: the first line, from `k` on,
    /// whose pulse does not compare less.
    pub open spec fn place_from(lines: Seq<(P, A)>, pulse: P, k: int) -> int
        decreases lines.len() - k,
    {
        if k < 0 || k >= lines.len() || lines[k].0.spec_compare(pulse) != Ordering::Less {
            if k < 0 { 0 } else { k }
        } else {
            Self::place_from(lines, pulse, k + 1)
        }
    }

    /// The place of `pulse` among `lines`: the first line whose pulse does
    /// not compare less, or the end.
    pub open spec fn place(lines: Seq<(P, A)>, pulse: P) -> int {
        Self::place_from(lines, pulse, 0)
    }
}

/// Adding a line keeps the pulses of a source in increasing order, where
/// pulses compare as a strict total order.
pub proof fn lemma_add_pulse_keeps_order<P: Pulse, A>(lines: Seq<(P, A)>, pulse: P, voltage: A)
    requires
        Source::<P, A>::pulses_increase(lines),
        Source::<P, A>::pulses_ordered(),
    ensures
        Source::<P, A>::pulses_increase(Source::<P, A>::added(lines, pulse, voltage)),
{
    let k = Source::<P, A>::place(lines, pulse);
    lemma_place_bounds(lines, pulse, 0);
    let r = Source::<P, A>::added(lines, pulse, voltage);
    if k < lines.len() && lines[k].0.spec_compare(pulse) == Ordering::Equal {
        assert forall|i: int, j: int| 0 <= i < j < r.len() implies (#[trigger] r[i]).0.spec_compare(
            (#[trigger] r[j]).0,
        ) == Ordering::Less by {
            assert(r[i].0 == lines[i].0);
            assert(r[j].0 == lines[j].0);
        }
    } else {
        assert forall|i: int, j: int| 0 <= i < j < r.len() implies (#[trigger] r[i]).0.spec_compare(
            (#[trigger] r[j]).0,
        ) == Ordering::Less by {
            if j < k {
                assert(r[i] == lines[i] && r[j] == lines[j]);
            } else if j == k {
                assert(r[j].0 == pulse);
                assert(r[i] == lines[i]);
            } else if i < k {
                assert(r[i] == lines[i] && r[j] == lines[j - 1]);
                assert(lines[j - 1].0.spec_compare(pulse) != Ordering::Less) by {
                    if j - 1 > k {
                        assert(lines[k].0.spec_compare(lines[j - 1].0) == Ordering::Less);
                    }
                }
                assert(lines[i].0.spec_compare(pulse) == Ordering::Less);
                if j - 1 > k {
                    assert(lines[i].0.spec_compare(lines[j - 1].0) == Ordering::Less);
                }
            } else if i == k {
                assert(r[i].0 == pulse && r[j] == lines[j - 1]);
                assert(lines[k].0.spec_compare(pulse) == Ordering::Greater);
                assert(pulse.spec_compare(lines[k].0) == Ordering::Less);
                if j - 1 > k {
                    assert(lines[k].0.spec_compare(lines[j - 1].0) == Ordering::Less);
                }
            } else {
                assert(r[i] == lines[i - 1] && r[j] == lines[j - 1]);
            }
        }
    }
}

/// The place of a pulse lies between `k` and the end, and every line before
/// it, from `k` on, compares less.
proof fn lemma_place_bounds<P: Pulse, A>(lines: Seq<(P, A)>, pulse: P, k: int)
    requires
        0 <= k <= lines.len(),
    ensures
        k <= Source::<P, A>::place_from(lines, pulse, k) <= lines.len(),
        forall|i: int|
            k <= i < Source::<P, A>::place_from(lines, pulse, k) ==> (#[trigger] lines[i]).0.spec_compare(pulse)
                == Ordering::Less,
        Source::<P, A>::place_from(lines, pulse, k) < lines.len() ==> lines[Source::<P, A>::place_from(
            lines,
            pulse,
            k,
        )].0.spec_compare(pulse) != Ordering::Less,
    decreases lines.len() - k,
{
    if k < lines.len() && lines[k].0.spec_compare(pulse) == Ordering::Less {
        lemma_place_bounds(lines, pulse, k + 1);
    }
}

} // verus!
