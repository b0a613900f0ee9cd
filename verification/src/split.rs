//! Splitting a log into lines and a sentence into comma-separated fields.
//!
//! A recording is a byte stream whose lines end in CRLF; a trailing chunk
//! without its CRLF is an unterminated partial line and is dropped.  Within
//! a line, fields are separated by commas, and empty fields are kept, so a
//! line always has at least one field.

use vstd::prelude::*;

verus! {

/// The sequences of the vector's element vectors.
pub open spec fn seqs_of(r: Seq<Vec<u8>>) -> Seq<Seq<u8>> {
    Seq::new(r.len(), |i: int| r[i]@)
}

/// The comma-separated fields of `s`, empty fields kept: splitting the
/// empty sequence gives one empty field.
pub open spec fn split_commas(s: Seq<u8>) -> Seq<Seq<u8>>
    decreases s.len(),
{
    if s.len() == 0 {
        seq![Seq::<u8>::empty()]
    } else if s[0] == 44 {
        seq![Seq::<u8>::empty()] + split_commas(s.drop_first())
    } else {
        let r = split_commas(s.drop_first());
        seq![seq![s[0]] + r[0]] + r.drop_first()
    }
}

pub proof fn lemma_split_commas_len(s: Seq<u8>)
    ensures
        split_commas(s).len() >= 1,
    decreases s.len(),
{
    if s.len() == 0 {
    } else {
        lemma_split_commas_len(s.drop_first());
    }
}

/// The complete CRLF-terminated lines of `s`, in order; bytes after the
/// last CRLF are an unterminated partial line and do not appear.
pub open spec fn split_crlf(s: Seq<u8>) -> Seq<Seq<u8>>
    decreases s.len(),
{
    if s.len() < 2 {
        Seq::<Seq<u8>>::empty()
    } else if s[0] == 13 && s[1] == 10 {
        seq![Seq::<u8>::empty()] + split_crlf(s.skip(2))
    } else {
        let r = split_crlf(s.drop_first());
        if r.len() == 0 {
            Seq::<Seq<u8>>::empty()
        } else {
            seq![seq![s[0]] + r[0]] + r.drop_first()
        }
    }
}

/// Splits one sentence into its comma-separated fields.
#[verifier::loop_isolation(false)]
pub fn split_fields(line: &[u8]) -> (r: Vec<Vec<u8>>)
    ensures
        seqs_of(r@) == split_commas(line@),
        r@.len() >= 1,
{
    let s = line;
    let n = s.len();
    let mut r: Vec<Vec<u8>> = Vec::new();
    let mut cur: Vec<u8> = Vec::new();
    let mut i: usize = 0;
    proof {
        lemma_split_commas_len(s@);
        assert(s@.skip(0) =~= s@);
    }
    while i < n
        invariant
            0 <= i <= n,
            n == s@.len(),
            split_commas(s@.skip(i as int)).len() >= 1,
            split_commas(s@) =~= seqs_of(r@) + seq![cur@ + split_commas(s@.skip(i as int))[0]]
                + split_commas(s@.skip(i as int)).drop_first(),
        decreases n - i,
    {
        let ghost tail = s@.skip(i as int);
        proof {
            assert(tail[0] == s@[i as int]);
            assert(tail.drop_first() =~= s@.skip(i + 1));
            lemma_split_commas_len(s@.skip(i + 1));
        }
        if s[i] == 44 {
            proof {
                let rest = split_commas(s@.skip(i + 1));
                assert(split_commas(tail) == seq![Seq::<u8>::empty()] + rest);
                assert(split_commas(tail)[0] =~= Seq::<u8>::empty());
                assert(cur@ + split_commas(tail)[0] =~= cur@);
                assert(split_commas(tail).drop_first() =~= rest);
                assert(seqs_of(r@.push(cur)) =~= seqs_of(r@).push(cur@));
                assert(seqs_of(r@) + seq![cur@] + rest =~= seqs_of(r@.push(cur)) + seq![
                    Seq::<u8>::empty() + rest[0]] + rest.drop_first());
            }
            r.push(cur);
            cur = Vec::new();
        } else {
            proof {
                let rest = split_commas(s@.skip(i + 1));
                assert(split_commas(tail) == seq![seq![tail[0]] + rest[0]] + rest.drop_first());
                assert(cur@ + split_commas(tail)[0] =~= cur@.push(s@[i as int]) + rest[0]);
                assert(split_commas(tail).drop_first() =~= rest.drop_first());
            }
            let b = s[i];
            cur.push(b);
        }
        i = i + 1;
    }
    proof {
        assert(s@.skip(n as int) =~= Seq::<u8>::empty());
        assert(split_commas(Seq::<u8>::empty()) == seq![Seq::<u8>::empty()]);
        assert(cur@ + Seq::<u8>::empty() =~= cur@);
        assert(seqs_of(r@.push(cur)) =~= seqs_of(r@).push(cur@));
        assert(split_commas(s@) =~= seqs_of(r@) + seq![cur@]);
        assert(seqs_of(r@) + seq![cur@] =~= seqs_of(r@).push(cur@));
    }
    r.push(cur);
    r
}

/// Splits a recording into its CRLF-terminated lines, dropping an
/// unterminated trailing partial line.
#[verifier::loop_isolation(false)]
pub fn split_lines(text: &[u8]) -> (r: Vec<Vec<u8>>)
    ensures
        seqs_of(r@) == split_crlf(text@),
{
    let s = text;
    let n = s.len();
    let mut r: Vec<Vec<u8>> = Vec::new();
    let mut cur: Vec<u8> = Vec::new();
    let mut i: usize = 0;
    proof {
        assert(s@.skip(0) =~= s@);
        assert(seqs_of(r@) =~= Seq::<Seq<u8>>::empty());
    }
    while i < n
        invariant
            0 <= i <= n,
            n == s@.len(),
            ({
                let rest = split_crlf(s@.skip(i as int));
                if rest.len() == 0 {
                    split_crlf(s@) =~= seqs_of(r@)
                } else {
                    split_crlf(s@) =~= seqs_of(r@) + seq![cur@ + rest[0]] + rest.drop_first()
                }
            }),
        decreases n - i,
    {
        let ghost tail = s@.skip(i as int);
        let ghost rest = split_crlf(tail);
        proof {
            if i < n {
                assert(tail[0] == s@[i as int]);
                assert(tail.drop_first() =~= s@.skip(i + 1));
            }
            if i + 1 < n {
                assert(tail[1] == s@[i + 1]);
                assert(tail.skip(2) =~= s@.skip(i + 2));
            }
        }
        if s[i] == 13 && i + 1 < n && s[i + 1] == 10 {
            proof {
                let rest2 = split_crlf(s@.skip(i + 2));
                assert(rest == seq![Seq::<u8>::empty()] + rest2);
                assert(rest[0] =~= Seq::<u8>::empty());
                assert(cur@ + rest[0] =~= cur@);
                assert(rest.drop_first() =~= rest2);
                assert(seqs_of(r@.push(cur)) =~= seqs_of(r@).push(cur@));
                if rest2.len() == 0 {
                    assert(split_crlf(s@) =~= seqs_of(r@.push(cur)));
                } else {
                    assert(seqs_of(r@) + seq![cur@] + rest2 =~= seqs_of(r@.push(cur)) + seq![
                        Seq::<u8>::empty() + rest2[0]] + rest2.drop_first());
                }
            }
            r.push(cur);
            cur = Vec::new();
            i = i + 2;
        } else {
            proof {
                let rest2 = split_crlf(s@.skip(i + 1));
                if tail.len() < 2 {
                    // one byte left and no CRLF after it: the tail is a
                    // partial line, and so is every suffix of it
                    assert(rest.len() == 0);
                    assert(s@.skip(i + 1) =~= tail.drop_first());
                    assert(rest2.len() == 0);
                } else {
                    assert(!(tail[0] == 13 && tail[1] == 10));
                    if rest2.len() == 0 {
                        assert(rest.len() == 0);
                    } else {
                        assert(rest == seq![seq![tail[0]] + rest2[0]] + rest2.drop_first());
                        assert(cur@ + rest[0] =~= cur@.push(s@[i as int]) + rest2[0]);
                        assert(rest.drop_first() =~= rest2.drop_first());
                    }
                }
            }
            let b = s[i];
            cur.push(b);
            i = i + 1;
        }
    }
    proof {
        assert(s@.skip(n as int) =~= Seq::<u8>::empty());
        assert(split_crlf(Seq::<u8>::empty()).len() == 0);
    }
    r
}

} // verus!
