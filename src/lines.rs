use vstd::prelude::*;
use vstd::string::StringSliceAdditionalSpecFns;
use vstd::utf8::*;

verus! {

/// The byte that ends a line.
pub const NEWLINE: u8 = 10;

/// Number of bytes before the first newline of `b`; all of `b` when it holds none.
pub open spec fn line_len(b: Seq<u8>) -> nat
    decreases b.len(),
{
    if b.len() == 0 || b[0] == NEWLINE {
        0
    } else {
        1 + line_len(b.drop_first())
    }
}

/// The lines of `b`: the runs of bytes between newlines, each without its
/// newline. A newline at the very end does not start another line, and an
/// empty text has no lines.
pub open spec fn lines_of(b: Seq<u8>) -> Seq<Seq<u8>>
    decreases b.len(),
{
    if b.len() == 0 {
        seq![]
    } else if line_len(b) < b.len() {
        seq![b.take(line_len(b) as int)] + lines_of(b.skip(line_len(b) + 1int))
    } else {
        seq![b]
    }
}

/// `line_len` is the index of the first newline, or the length.
pub proof fn lemma_line_len(b: Seq<u8>, e: int)
    requires
        0 <= e <= b.len(),
        forall|j: int| 0 <= j < e ==> b[j] != NEWLINE,
        e == b.len() || b[e] == NEWLINE,
    ensures
        line_len(b) == e,
    decreases e,
{
    if e > 0 {
        lemma_line_len(b.drop_first(), e - 1);
    }
}

/// Index of the first newline byte of `b`, or its length when there is none.
fn line_end(b: &[u8]) -> (e: usize)
    ensures
        e == line_len(b@),
        e <= b@.len(),
        e < b@.len() ==> b@[e as int] == NEWLINE,
{
    let mut i: usize = 0;
    while i < b.len() && b[i] != NEWLINE
        invariant
            i <= b@.len(),
            forall|j: int| 0 <= j < i ==> b@[j] != NEWLINE,
        decreases b@.len() - i,
    {
        i += 1;
    }
    proof {
        lemma_line_len(b@, i as int);
    }
    i
}

/// Splits off the first line of a non-empty text: returns that line and the
/// text after its newline (empty when the line was the last one).
pub fn split_first_line<'a>(text: &'a str) -> (r: (&'a str, &'a str))
    requires
        text.spec_bytes().len() > 0,
    ensures
        lines_of(text.spec_bytes()) == seq![r.0.spec_bytes()] + lines_of(r.1.spec_bytes()),
        r.1.spec_bytes().len() < text.spec_bytes().len(),
{
    let ghost b = text.spec_bytes();
    proof {
        encode_utf8_valid_utf8(text@);
        is_char_boundary_start_end_of_seq(b);
    }
    let bytes = text.as_bytes();
    let e = line_end(bytes);
    if e == bytes.len() {
        proof {
            assert(lines_of(b) == seq![b]);
        }
        let (line, rest) = text.split_at(e);
        assert(line.spec_bytes() =~= b);
        assert(rest.spec_bytes().len() == 0);
        assert(lines_of(rest.spec_bytes()) =~= Seq::<Seq<u8>>::empty());
        (line, rest)
    } else {
        proof {
            is_char_boundary_iff_not_is_continuation_byte(b, e as int);
            assert(!is_continuation_byte(b[e as int]));
        }
        let (line, tail) = text.split_at(e);
        let ghost t = tail.spec_bytes();
        proof {
            valid_utf8_split(b, e as int);
            assert(t[0] == NEWLINE);
            reveal_with_fuel(is_char_boundary, 2);
            assert(is_char_boundary(t, 1));
        }
        let (_, rest) = tail.split_at(1);
        assert(line.spec_bytes() =~= b.take(e as int));
        assert(rest.spec_bytes() =~= b.skip(e + 1));
        (line, rest)
    }
}

} // verus!
