use vstd::prelude::*;
use vstd::slice::slice_subrange;

verus! {

/// Longest piece of text handed to the console in one call.
pub const WRITE_CHUNK: usize = 120;
/// Room for a path, its terminating 0 included.
pub const PATH_CAP: usize = 128;
/// Room for the arguments of a started program, its terminating 0 included.
pub const ARGS_CAP: usize = 256;
/// Room for the name of an environment variable, its terminating 0 included.
pub const ENV_NAME_CAP: usize = 40;
/// Room for the value of an environment variable, its terminating 0 included.
pub const ENV_VALUE_CAP: usize = 132;

/// The zero-terminated form of `text` in a buffer of `cap` bytes; None when it does not
/// fit.
pub open spec fn spec_c_buffer(text: Seq<u8>, cap: int) -> Option<Seq<u8>> {
    if text.len() >= cap {
        None
    } else {
        Some(text.push(0u8))
    }
}

/// The pieces in which `text` goes to the console: 120 bytes at most each, each
/// terminated by a 0.
pub open spec fn write_pieces(text: Seq<u8>) -> Seq<Seq<u8>>
    decreases text.len(),
{
    if text.len() == 0 {
        Seq::empty()
    } else if text.len() <= WRITE_CHUNK {
        seq![text.push(0u8)]
    } else {
        seq![text.take(WRITE_CHUNK as int).push(0u8)] + write_pieces(text.skip(WRITE_CHUNK as int))
    }
}

/// The zero-terminated copy of `text` for a buffer of `cap` bytes, or None when it does
/// not fit (the call is then refused with -1).
pub fn c_buffer(text: &[u8], cap: usize) -> (r: Option<Vec<u8>>)
    ensures
        match r {
            Some(v) => spec_c_buffer(text@, cap as int) == Some(v@),
            None => spec_c_buffer(text@, cap as int) is None,
        },
{
    if text.len() >= cap {
        return None;
    }
    let mut buf: Vec<u8> = Vec::new();
    let mut i: usize = 0;
    while i < text.len()
        invariant
            i <= text@.len(),
            buf@ == text@.take(i as int),
        decreases text@.len() - i,
    {
        buf.push(text[i]);
        i = i + 1;
        proof {
            assert(buf@ =~= text@.take(i as int));
        }
    }
    buf.push(0);
    proof {
        assert(text@.take(text@.len() as int) =~= text@);
    }
    Some(buf)
}

/// Splits `text` into the zero-terminated pieces written to the console.
pub fn write_chunks(text: &[u8]) -> (r: Vec<Vec<u8>>)
    ensures
        r@.map_values(|v: Vec<u8>| v@) == write_pieces(text@),
{
    let mut r: Vec<Vec<u8>> = Vec::new();
    let mut i: usize = 0;
    proof {
        assert(text@.skip(0) =~= text@);
        assert(r@.map_values(|v: Vec<u8>| v@) =~= Seq::<Seq<u8>>::empty());
        assert(Seq::<Seq<u8>>::empty() + write_pieces(text@) =~= write_pieces(text@));
    }
    while i < text.len()
        invariant
            i <= text@.len(),
            r@.map_values(|v: Vec<u8>| v@) + write_pieces(text@.skip(i as int)) == write_pieces(text@),
        decreases text@.len() - i,
    {
        let n: usize = if text.len() - i < WRITE_CHUNK {
            text.len() - i
        } else {
            WRITE_CHUNK
        };
        let piece = slice_subrange(text, i, i + n);
        let mut buf: Vec<u8> = Vec::new();
        let mut k: usize = 0;
        while k < n
            invariant
                k <= n,
                n == piece@.len(),
                buf@ == piece@.take(k as int),
            decreases n - k,
        {
            buf.push(piece[k]);
            k = k + 1;
            proof {
                assert(buf@ =~= piece@.take(k as int));
            }
        }
        buf.push(0);
        proof {
            let rest = text@.skip(i as int);
            assert(piece@.take(n as int) =~= piece@);
            if rest.len() <= WRITE_CHUNK {
                assert(piece@ =~= rest);
                assert(rest.skip(n as int) =~= Seq::<u8>::empty());
                assert(text@.skip(i + n) =~= Seq::<u8>::empty());
                assert(write_pieces(text@.skip(i + n)) =~= Seq::<Seq<u8>>::empty());
            } else {
                assert(piece@ =~= rest.take(WRITE_CHUNK as int));
                assert(rest.skip(WRITE_CHUNK as int) =~= text@.skip(i + n));
            }
            let old_r = r@.map_values(|v: Vec<u8>| v@);
            assert(r@.push(buf).map_values(|v: Vec<u8>| v@) =~= old_r.push(buf@));
            assert(old_r.push(buf@) + write_pieces(text@.skip(i + n)) =~= old_r + (seq![buf@] + write_pieces(text@.skip(i + n))));
        }
        r.push(buf);
        i = i + n;
    }
    proof {
        assert(text@.skip(i as int) =~= Seq::<u8>::empty());
        assert(r@.map_values(|v: Vec<u8>| v@) + Seq::<Seq<u8>>::empty() =~= r@.map_values(|v: Vec<u8>| v@));
    }
    r
}

/// What the window manager answered a pointer report: (it took the report, the focus
/// changed). A negative answer is an error and means neither.
pub fn pointer_reply(result: i64) -> (r: (bool, bool))
    ensures
        r == (if result < 0 { (false, false) } else { ((result & 1) != 0, (result & 2) != 0) }),
{
    if result < 0 {
        return (false, false);
    }
    ((result & 1) != 0, (result & 2) != 0)
}

} // verus!
