//! The dot-delimited path of mapping keys from a document's root down to the
//! mapping being visited.
use vstd::prelude::*;
use vstd::string::*;

verus! {

/// Segments joined by `.`, with no leading or trailing dot.
pub open spec fn join(segs: Seq<Seq<char>>) -> Seq<char>
    decreases segs.len(),
{
    if segs.len() == 0 {
        Seq::empty()
    } else if segs.len() == 1 {
        segs[0]
    } else {
        join(segs.drop_last()) + seq!['.'] + segs.last()
    }
}

/// The keys of the mappings entered so far, root first.
pub struct PathTracker {
    segments: Vec<String>,
}

impl View for PathTracker {
    type V = Seq<Seq<char>>;

    closed spec fn view(&self) -> Seq<Seq<char>> {
        self.segments@.map_values(|s: String| s@)
    }
}

impl PathTracker {
    /// A tracker at the root of a document.
    pub fn new() -> (r: PathTracker)
        ensures
            r@ == Seq::<Seq<char>>::empty(),
    {
        let r = PathTracker { segments: Vec::new() };
        assert(r@ =~= Seq::<Seq<char>>::empty());
        r
    }

    /// Descends into the child mapping under `key`.
    pub fn enter(&mut self, key: String)
        ensures
            final(self)@ == old(self)@.push(key@),
    {
        self.segments.push(key);
        assert(self@ =~= old(self)@.push(key@));
    }

    /// Returns from the mapping entered last.
    pub fn leave(&mut self)
        requires
            old(self)@.len() > 0,
        ensures
            final(self)@ == old(self)@.drop_last(),
    {
        self.segments.pop();
        assert(self@ =~= old(self)@.drop_last());
    }

    /// The dot-joined path, `.`, and `key`; just `key` at the root.
    pub fn identifier(&self, key: &str) -> (r: String)
        ensures
            r@ == join(self@.push(key@)),
    {
        let n = self.segments.len();
        let mut out = String::new();
        let mut i: usize = 0;
        while i < n
            invariant
                n == self@.len(),
                i <= n,
                out@ == join(self@.take(i as int)),
            decreases n - i,
        {
            let ghost segs = self@.take(i as int + 1);
            assert(segs.drop_last() =~= self@.take(i as int));
            if i > 0 {
                proof {
                    reveal_strlit(".");
                }
                out.append(".");
            } else {
                assert(self@.take(0) =~= Seq::<Seq<char>>::empty());
            }
            out.append(self.segments[i].as_str());
            i += 1;
        }
        let ghost full = self@.push(key@);
        assert(full.drop_last() =~= self@);
        assert(self@.take(n as int) =~= self@);
        if n > 0 {
            proof {
                reveal_strlit(".");
            }
            out.append(".");
        }
        out.append(key);
        out
    }
}

} // verus!
