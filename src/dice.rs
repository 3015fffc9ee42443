use vstd::prelude::*;

verus! {

/// The face a scripted value stands for on a die with `sides` faces:
/// the value itself, moved into `1..=sides` when it lies outside.
pub open spec fn face(v: u32, sides: u32) -> u32 {
    if v < 1 {
        1
    } else if v > sides {
        sides
    } else {
        v
    }
}

/// Whether `b` starts with `a`.
pub open spec fn is_prefix(a: Seq<u32>, b: Seq<u32>) -> bool {
    &&& a.len() <= b.len()
    &&& forall|j: int| 0 <= j < a.len() ==> #[trigger] a[j] == b[j]
}

/// A prefix of a prefix is a prefix.
pub proof fn lemma_prefix_trans(a: Seq<u32>, b: Seq<u32>, c: Seq<u32>)
    requires
        is_prefix(a, b),
        is_prefix(b, c),
    ensures
        is_prefix(a, c),
{
    assert forall|j: int| 0 <= j < a.len() implies c[j] == a[j] by {
        assert(a[j] == b[j]);
        assert(b[j] == c[j]);
    }
}

/// Relies on rand's `thread_rng` and `Rng::gen_range`: a value drawn from the
/// thread-local generator over `lo..=hi` lies in that range (it panics only
/// when the range is empty).
#[verifier::external_body]
fn draw(lo: u32, hi: u32) -> (r: u32)
    requires
        lo <= hi,
    ensures
        lo <= r <= hi,
{
    rand::Rng::gen_range(&mut rand::thread_rng(), lo..=hi)
}

/// Where dice get their faces: the thread's random generator, or a fixed
/// script of values that is replayed in a cycle.
pub struct Dice {
    random: bool,
    script: Vec<u32>,
    next: usize,
    drawn: Ghost<Seq<u32>>,
}

impl Dice {
    /// Every face this source has given, oldest first.
    pub closed spec fn history(&self) -> Seq<u32> {
        self.drawn@
    }

    /// Whether this source replays a script.
    pub closed spec fn is_scripted(&self) -> bool {
        !self.random
    }

    /// The script that is replayed.
    pub closed spec fn script(&self) -> Seq<u32> {
        self.script@
    }

    /// Where in the script the next face comes from.
    pub closed spec fn cursor(&self) -> int {
        self.next as int
    }

    /// The cursor stays inside the script.
    pub closed spec fn wf(&self) -> bool {
        &&& self.script@.len() == 0 ==> self.next == 0
        &&& self.script@.len() > 0 ==> self.next < self.script@.len()
    }

    /// Faces from the thread's random generator.
    pub fn thread() -> (d: Dice)
        ensures
            d.wf(),
            !d.is_scripted(),
            d.history() == Seq::<u32>::empty(),
    {
        Dice { random: true, script: Vec::new(), next: 0, drawn: Ghost(Seq::empty()) }
    }

    /// Faces from `values`, in order and then again from the start; with no
    /// values every die shows 1.
    pub fn scripted(values: Vec<u32>) -> (d: Dice)
        ensures
            d.wf(),
            d.is_scripted(),
            d.script() == values@,
            d.cursor() == 0,
            d.history() == Seq::<u32>::empty(),
    {
        Dice { random: false, script: values, next: 0, drawn: Ghost(Seq::empty()) }
    }

    /// Rolls one die with `sides` faces.
    pub fn roll(&mut self, sides: u32) -> (r: u32)
        requires
            old(self).wf(),
            sides >= 1,
        ensures
            final(self).wf(),
            1 <= r <= sides,
            final(self).history() == old(self).history().push(r),
            final(self).is_scripted() == old(self).is_scripted(),
            final(self).script() == old(self).script(),
            old(self).is_scripted() && old(self).script().len() > 0 ==> {
                &&& r == face(old(self).script()[old(self).cursor()], sides)
                &&& final(self).cursor() == (old(self).cursor() + 1) % (old(self).script().len() as int)
            },
            old(self).is_scripted() && old(self).script().len() == 0 ==> r == 1,
    {
        let r = if self.random {
            draw(1, sides)
        } else if self.script.len() == 0 {
            1
        } else {
            let v = self.script[self.next];
            proof {
                let len = self.script@.len() as int;
                if self.next + 1 == len {
                    vstd::arithmetic::div_mod::lemma_mod_self_0(len);
                } else {
                    vstd::arithmetic::div_mod::lemma_small_mod((self.next + 1) as nat, len as nat);
                }
            }
            self.next = if self.next + 1 == self.script.len() { 0 } else { self.next + 1 };
            if v < 1 {
                1
            } else if v > sides {
                sides
            } else {
                v
            }
        };
        self.drawn = Ghost(self.drawn@.push(r));
        r
    }
}

} // verus!
