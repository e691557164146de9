//! Formatted strings: literal text with embedded interpolations.
use vstd::prelude::*;
use vstd::string::StringExecFns;

verus! {

/// A source position, carried so that diagnostics can point at their cause.
#[derive(Clone, Copy, Debug, PartialEq, Eq, Structural)]
pub struct Span {
    pub line: u32,
    pub column: u32,
}

/// One piece of a formatted string.
#[derive(Clone, Debug, PartialEq, Eq)]
pub enum Segment {
    /// Text known when the template is compiled.
    Literal(String),
    /// An interpolated expression, such as `{value}`, held as its source text.
    Formatted(String),
}

/// A formatted string such as `"item-{id}"`.
#[derive(Clone, Debug, PartialEq, Eq)]
pub struct IfmtInput {
    pub segments: Vec<Segment>,
}

/// A formatted string is static when it has no interpolated segment.
pub open spec fn segments_static(s: Seq<Segment>) -> bool {
    forall|i: int| 0 <= i < s.len() ==> s[i] is Literal
}

/// The text of the literal segments, in order.
pub open spec fn literal_text(s: Seq<Segment>) -> Seq<char>
    decreases s.len(),
{
    if s.len() == 0 {
        Seq::empty()
    } else {
        let prefix = literal_text(s.drop_last());
        match s.last() {
            Segment::Literal(t) => prefix + t@,
            Segment::Formatted(_) => prefix,
        }
    }
}

pub fn copy_string(s: &String) -> (r: String)
    ensures
        r == *s,
{
    s.clone()
}

impl Segment {
    pub fn duplicate(&self) -> (r: Segment)
        ensures
            r == *self,
    {
        match self {
            Segment::Literal(t) => Segment::Literal(t.clone()),
            Segment::Formatted(t) => Segment::Formatted(t.clone()),
        }
    }
}

impl IfmtInput {
    pub open spec fn view(&self) -> Seq<Segment> {
        self.segments@
    }

    pub fn duplicate(&self) -> (r: IfmtInput)
        ensures
            r@ == self@,
    {
        let mut segments: Vec<Segment> = Vec::new();
        let mut i: usize = 0;
        while i < self.segments.len()
            invariant
                i <= self.segments@.len(),
                segments@ == self.segments@.subrange(0, i as int),
            decreases self.segments@.len() - i,
        {
            segments.push(self.segments[i].duplicate());
            i = i + 1;
            proof {
                assert(segments@ =~= self.segments@.subrange(0, i as int));
            }
        }
        proof {
            assert(segments@ =~= self.segments@);
        }
        IfmtInput { segments }
    }

    /// Whether the string holds no interpolation.
    pub fn is_static(&self) -> (r: bool)
        ensures
            r == segments_static(self@),
    {
        let mut i: usize = 0;
        while i < self.segments.len()
            invariant
                i <= self.segments@.len(),
                forall|k: int| 0 <= k < i ==> self.segments@[k] is Literal,
            decreases self.segments@.len() - i,
        {
            if let Segment::Formatted(_) = &self.segments[i] {
                return false;
            }
            i = i + 1;
        }
        true
    }

    /// The string's text when it is static.
    pub fn to_static(&self) -> (r: Option<String>)
        ensures
            r is Some <==> segments_static(self@),
            r matches Some(s) ==> s@ == literal_text(self@),
    {
        let mut out = String::new();
        let mut i: usize = 0;
        while i < self.segments.len()
            invariant
                i <= self.segments@.len(),
                forall|k: int| 0 <= k < i ==> self.segments@[k] is Literal,
                out@ == literal_text(self.segments@.subrange(0, i as int)),
            decreases self.segments@.len() - i,
        {
            proof {
                assert(self.segments@.subrange(0, i + 1).drop_last() =~= self.segments@.subrange(
                    0,
                    i as int,
                ));
            }
            match &self.segments[i] {
                Segment::Literal(t) => {
                    out.append(t.as_str());
                },
                Segment::Formatted(_) => {
                    return None;
                },
            }
            i = i + 1;
        }
        proof {
            assert(self.segments@.subrange(0, i as int) =~= self.segments@);
        }
        Some(out)
    }

    /// The concatenation of two formatted strings.
    pub fn concat(&self, other: &IfmtInput) -> (r: IfmtInput)
        ensures
            r@ == self@ + other@,
    {
        let mut r = self.duplicate();
        let mut i: usize = 0;
        while i < other.segments.len()
            invariant
                i <= other.segments@.len(),
                r@ == self@ + other.segments@.subrange(0, i as int),
            decreases other.segments@.len() - i,
        {
            r.segments.push(other.segments[i].duplicate());
            i = i + 1;
            proof {
                assert(r@ =~= self@ + other.segments@.subrange(0, i as int));
            }
        }
        proof {
            assert(other.segments@.subrange(0, i as int) =~= other@);
        }
        r
    }
}

} // verus!
