//! The position in the module hierarchy during code generation, and the
//! paths it leads to.
use vstd::prelude::*;
use crate::text::{chars_of, clone_strings, string_from_chars, to_owned_string};
use crate::task_list::path_order::strings_view;

verus! {

/// A Rust path: its segments, and whether `::` follows the last one.
#[derive(Debug)]
pub struct RustPath {
    pub segments: Vec<String>,
    pub trailing_colons: bool,
}

/// The segments separated by ` :: `, the way a token stream of the path
/// prints, with ` ::` at the end when the path ends in `::`.
pub open spec fn path_text(segments: Seq<Seq<char>>, trailing: bool) -> Seq<char>
    decreases segments.len(),
{
    if segments.len() == 0 {
        if trailing {
            "::"@
        } else {
            Seq::empty()
        }
    } else {
        let head = path_text(segments.drop_last(), false);
        let body = if segments.len() == 1 {
            segments.last()
        } else {
            head + " :: "@ + segments.last()
        };
        if trailing {
            body + " ::"@
        } else {
            body
        }
    }
}

impl RustPath {
    /// The path's text, e.g. `cli :: git :: advanced`.
    pub fn to_string(&self) -> (r: String)
        ensures
            r@ == path_text(strings_view(self.segments@), self.trailing_colons),
    {
        let ghost sv = strings_view(self.segments@);
        let mut out: Vec<char> = Vec::new();
        let mut i: usize = 0;
        while i < self.segments.len()
            invariant
                sv == strings_view(self.segments@),
                i <= self.segments@.len(),
                out@ == path_text(sv.take(i as int), false),
            decreases self.segments@.len() - i,
        {
            assert(sv.take(i + 1).drop_last() == sv.take(i as int));
            assert(sv.take(i + 1).last() == self.segments@[i as int]@);
            if i > 0 {
                let sep = chars_of(" :: ");
                let mut k: usize = 0;
                let ghost o0 = out@;
                while k < sep.len()
                    invariant
                        k <= sep@.len(),
                        out@ == o0 + sep@.take(k as int),
                    decreases sep@.len() - k,
                {
                    out.push(sep[k]);
                    assert(sep@.take(k + 1) == sep@.take(k as int).push(sep@[k as int]));
                    k = k + 1;
                }
                assert(sep@.take(sep@.len() as int) == sep@);
            }
            let seg = chars_of(self.segments[i].as_str());
            let mut k: usize = 0;
            let ghost o1 = out@;
            while k < seg.len()
                invariant
                    k <= seg@.len(),
                    out@ == o1 + seg@.take(k as int),
                decreases seg@.len() - k,
            {
                out.push(seg[k]);
                assert(seg@.take(k + 1) == seg@.take(k as int).push(seg@[k as int]));
                k = k + 1;
            }
            assert(seg@.take(seg@.len() as int) == seg@);
            proof {
                if i == 0 {
                    assert(out@ == sv.take(1).last());
                }
            }
            i = i + 1;
        }
        assert(sv.take(self.segments@.len() as int) == sv);
        if self.trailing_colons {
            let tail = if self.segments.len() == 0 {
                chars_of("::")
            } else {
                chars_of(" ::")
            };
            let mut k: usize = 0;
            let ghost o2 = out@;
            while k < tail.len()
                invariant
                    k <= tail@.len(),
                    out@ == o2 + tail@.take(k as int),
                decreases tail@.len() - k,
            {
                out.push(tail[k]);
                assert(tail@.take(k + 1) == tail@.take(k as int).push(tail@[k as int]));
                k = k + 1;
            }
            assert(tail@.take(tail@.len() as int) == tail@);
            proof {
                if sv.len() == 0 {
                    assert(o2 == Seq::<char>::empty());
                    assert(out@ == tail@);
                }
            }
        }
        string_from_chars(&out)
    }
}

/// The module path from the tusks root to the module being generated.
#[derive(Debug)]
pub struct ModulePath {
    pub segments: Vec<String>,
}

impl ModulePath {
    /// The segment names as character sequences.
    pub open spec fn segments_view(&self) -> Seq<Seq<char>> {
        strings_view(self.segments@)
    }

    /// The root: no segments.
    pub fn new() -> (r: Self)
        ensures
            r.segments_view() == Seq::<Seq<char>>::empty(),
    {
        ModulePath { segments: Vec::new() }
    }

    /// A new path with `name` appended; this one is left as it is.
    pub fn join(&self, name: &str) -> (r: Self)
        ensures
            r.segments_view() == self.segments_view().push(name@),
    {
        let mut segments = clone_strings(&self.segments);
        segments.push(to_owned_string(name));
        ModulePath { segments }
    }

    pub fn is_empty(&self) -> (r: bool)
        ensures
            r == (self.segments@.len() == 0),
    {
        self.segments.len() == 0
    }

    /// The last segment, if any.
    pub fn last(&self) -> (r: Option<&str>)
        ensures
            match r {
                Some(s) => self.segments@.len() > 0 && s@ == self.segments@.last()@,
                None => self.segments@.len() == 0,
            },
    {
        if self.segments.len() == 0 {
            None
        } else {
            Some(self.segments[self.segments.len() - 1].as_str())
        }
    }

    /// `cli` followed by the segments: the path of the `Commands` enum
    /// matched at this level.
    pub fn cli_path(&self) -> (r: RustPath)
        ensures
            strings_view(r.segments@) == seq!["cli"@] + self.segments_view(),
            !r.trailing_colons,
    {
        let mut segments: Vec<String> = Vec::new();
        segments.push(to_owned_string("cli"));
        let mut i: usize = 0;
        while i < self.segments.len()
            invariant
                i <= self.segments@.len(),
                strings_view(segments@) == seq!["cli"@] + self.segments_view().take(i as int),
            decreases self.segments@.len() - i,
        {
            let ghost s0 = segments@;
            segments.push(self.segments[i].clone());
            assert(strings_view(segments@) == strings_view(s0).push(self.segments@[i as int]@));
            assert(self.segments_view().take(i + 1) == self.segments_view().take(i as int).push(self.segments@[i as int]@));
            assert(seq!["cli"@] + self.segments_view().take(i + 1) == (seq!["cli"@] + self.segments_view().take(i as int)).push(self.segments@[i as int]@));
            i = i + 1;
        }
        assert(self.segments_view().take(self.segments@.len() as int) == self.segments_view());
        RustPath { segments, trailing_colons: false }
    }

    /// `super` followed by the segments and `::`: the prefix of paths to
    /// items of the module at this level.
    pub fn super_path(&self) -> (r: RustPath)
        ensures
            strings_view(r.segments@) == seq!["super"@] + self.segments_view(),
            r.trailing_colons,
    {
        let p = self.super_segments();
        RustPath { segments: p, trailing_colons: true }
    }

    /// `super`, the segments, then `name`: the path to an item of the
    /// module at this level.
    pub fn super_path_to(&self, name: &str) -> (r: RustPath)
        ensures
            strings_view(r.segments@) == seq!["super"@] + self.segments_view() + seq![name@],
            !r.trailing_colons,
    {
        let mut p = self.super_segments();
        p.push(to_owned_string(name));
        RustPath { segments: p, trailing_colons: false }
    }

    fn super_segments(&self) -> (r: Vec<String>)
        ensures
            strings_view(r@) == seq!["super"@] + self.segments_view(),
    {
        let mut segments: Vec<String> = Vec::new();
        segments.push(to_owned_string("super"));
        let mut i: usize = 0;
        while i < self.segments.len()
            invariant
                i <= self.segments@.len(),
                strings_view(segments@) == seq!["super"@] + self.segments_view().take(i as int),
            decreases self.segments@.len() - i,
        {
            let ghost s0 = segments@;
            segments.push(self.segments[i].clone());
            assert(strings_view(segments@) == strings_view(s0).push(self.segments@[i as int]@));
            assert(self.segments_view().take(i + 1) == self.segments_view().take(i as int).push(self.segments@[i as int]@));
            assert(seq!["super"@] + self.segments_view().take(i + 1) == (seq!["super"@] + self.segments_view().take(i as int)).push(self.segments@[i as int]@));
            i = i + 1;
        }
        assert(self.segments_view().take(self.segments@.len() as int) == self.segments_view());
        segments
    }
}

} // verus!
