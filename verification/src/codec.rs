//! The ledger file encoding.
//!
//! Each announced id is written with `;` as a record terminator; `;` and the
//! escape character `\` occurring inside an id are escaped with `\`.  The
//! encoding round-trips every set of ids, whatever characters they hold:
//! [`lemma_decode_encode_round_trip`] proves it.
use vstd::prelude::*;

verus! {

broadcast use vstd::seq_lib::group_seq_lib_default;

/// How one character of an id appears in the file.
pub open spec fn esc_char(c: char) -> Seq<char> {
    if c == ';' || c == '\\' {
        seq!['\\', c]
    } else {
        seq![c]
    }
}

/// How an id's characters appear in the file, before the terminator.
pub open spec fn esc_seq(id: Seq<char>) -> Seq<char>
    decreases id.len(),
{
    if id.len() == 0 {
        Seq::empty()
    } else {
        esc_seq(id.drop_last()) + esc_char(id.last())
    }
}

/// One full record: the escaped id and its terminator.
pub open spec fn enc_record(id: Seq<char>) -> Seq<char> {
    esc_seq(id) + seq![';']
}

/// The whole file: the records of all ids, in order.
pub open spec fn encode_ids(ids: Seq<Seq<char>>) -> Seq<char>
    decreases ids.len(),
{
    if ids.len() == 0 {
        Seq::empty()
    } else {
        encode_ids(ids.drop_last()) + enc_record(ids.last())
    }
}

/// Reads one record off the front: the id it carries and the count of
/// characters consumed.  `None` when no terminated record starts here.
pub open spec fn dec_record(s: Seq<char>) -> Option<(Seq<char>, int)>
    decreases s.len(),
{
    if s.len() == 0 {
        None
    } else if s[0] == ';' {
        Some((Seq::empty(), 1))
    } else if s[0] == '\\' {
        if s.len() < 2 {
            None
        } else {
            match dec_record(s.skip(2)) {
                None => None,
                Some(p) => Some((seq![s[1]] + p.0, p.1 + 2)),
            }
        }
    } else {
        match dec_record(s.skip(1)) {
            None => None,
            Some(p) => Some((seq![s[0]] + p.0, p.1 + 1)),
        }
    }
}

/// Reads a whole file: the ids of all its records, in order.  `None` when
/// the text is not a sequence of terminated records.
pub open spec fn decode_ids(s: Seq<char>) -> Option<Seq<Seq<char>>>
    decreases s.len(),
{
    if s.len() == 0 {
        Some(Seq::empty())
    } else {
        match dec_record(s) {
            None => None,
            Some(p) => if 1 <= p.1 <= s.len() {
                match decode_ids(s.skip(p.1)) {
                    None => None,
                    Some(rest) => Some(seq![p.0] + rest),
                }
            } else {
                None
            },
        }
    }
}

/// A record consumes at least its terminator and never more than the text.
proof fn lemma_dec_record_bounds(s: Seq<char>)
    ensures
        dec_record(s) matches Some(p) ==> 1 <= p.1 <= s.len(),
    decreases s.len(),
{
    if s.len() > 0 && s[0] != ';' {
        if s[0] == '\\' {
            if s.len() >= 2 {
                lemma_dec_record_bounds(s.skip(2));
            }
        } else {
            lemma_dec_record_bounds(s.skip(1));
        }
    }
}

/// The escaped text of an id can also be peeled from the front.
proof fn lemma_esc_seq_front(id: Seq<char>)
    requires
        id.len() > 0,
    ensures
        esc_seq(id) == esc_char(id[0]) + esc_seq(id.skip(1)),
    decreases id.len(),
{
    if id.len() == 1 {
        assert(id.drop_last() =~= Seq::<char>::empty());
        assert(id.skip(1) =~= Seq::<char>::empty());
        assert(esc_seq(id) =~= esc_char(id[0]) + esc_seq(id.skip(1)));
    } else {
        let dl = id.drop_last();
        lemma_esc_seq_front(dl);
        assert(id.skip(1).drop_last() =~= dl.skip(1));
        assert(id.skip(1).last() == id.last());
        assert(esc_seq(id.skip(1)) == esc_seq(dl.skip(1)) + esc_char(id.last()));
        assert(esc_seq(id) =~= esc_char(id[0]) + esc_seq(id.skip(1)));
    }
}

/// The encoded file can also be peeled one record at a time.
proof fn lemma_encode_ids_front(ids: Seq<Seq<char>>)
    requires
        ids.len() > 0,
    ensures
        encode_ids(ids) == enc_record(ids[0]) + encode_ids(ids.skip(1)),
    decreases ids.len(),
{
    if ids.len() == 1 {
        assert(ids.drop_last() =~= Seq::<Seq<char>>::empty());
        assert(ids.skip(1) =~= Seq::<Seq<char>>::empty());
        assert(encode_ids(ids) =~= enc_record(ids[0]) + encode_ids(ids.skip(1)));
    } else {
        let dl = ids.drop_last();
        lemma_encode_ids_front(dl);
        assert(ids.skip(1).drop_last() =~= dl.skip(1));
        assert(ids.skip(1).last() == ids.last());
        assert(encode_ids(ids.skip(1)) == encode_ids(dl.skip(1)) + enc_record(ids.last()));
        assert(encode_ids(ids) =~= enc_record(ids[0]) + encode_ids(ids.skip(1)));
    }
}

/// Decoding one record undoes encoding it, whatever text follows.
proof fn lemma_dec_enc_record(id: Seq<char>, rest: Seq<char>)
    ensures
        dec_record(enc_record(id) + rest) == Some((id, enc_record(id).len() as int)),
    decreases id.len(),
{
    let s = enc_record(id) + rest;
    if id.len() == 0 {
        assert(s[0] == ';');
        assert(dec_record(s) == Some((Seq::<char>::empty(), 1int)));
    } else {
        let c = id[0];
        lemma_esc_seq_front(id);
        lemma_dec_enc_record(id.skip(1), rest);
        if c == ';' || c == '\\' {
            assert(s[0] == '\\' && s[1] == c);
            assert(s.skip(2) =~= enc_record(id.skip(1)) + rest);
            assert(seq![s[1]] + id.skip(1) =~= id);
            assert(enc_record(id).len() == 2 + enc_record(id.skip(1)).len());
        } else {
            assert(s[0] == c);
            assert(s.skip(1) =~= enc_record(id.skip(1)) + rest);
            assert(seq![s[0]] + id.skip(1) =~= id);
            assert(enc_record(id).len() == 1 + enc_record(id.skip(1)).len());
        }
    }
}

/// Round trip: decoding an encoded ledger yields exactly the ids that were
/// encoded, in order, for every set of ids.
pub proof fn lemma_decode_encode_round_trip(ids: Seq<Seq<char>>)
    ensures
        decode_ids(encode_ids(ids)) == Some(ids),
    decreases ids.len(),
{
    if ids.len() > 0 {
        let s = encode_ids(ids);
        lemma_encode_ids_front(ids);
        lemma_dec_enc_record(ids[0], encode_ids(ids.skip(1)));
        let len0 = enc_record(ids[0]).len() as int;
        assert(len0 >= 1);
        assert(s.len() == len0 + encode_ids(ids.skip(1)).len());
        assert(s.skip(len0) =~= encode_ids(ids.skip(1)));
        lemma_decode_encode_round_trip(ids.skip(1));
        assert(seq![ids[0]] + ids.skip(1) =~= ids);
    }
}

/// The characters of a string slice, in order.
pub fn str_to_chars(s: &str) -> (r: Vec<char>)
    ensures
        r@ == s@,
{
    let n = s.unicode_len();
    let mut r: Vec<char> = Vec::new();
    let mut i: usize = 0;
    while i < n
        invariant
            i <= n,
            n == s@.len(),
            r@ == s@.take(i as int),
        decreases n - i,
    {
        r.push(s.get_char(i));
        proof {
            assert(r@ =~= s@.take(i + 1));
        }
        i += 1;
    }
    proof {
        assert(s@.take(n as int) =~= s@);
    }
    r
}

/// Relies on `String: FromIterator<char>`: collecting chars yields the
/// string holding exactly those characters.
#[verifier::external_body]
fn chars_to_string(chars: &Vec<char>) -> (r: String)
    ensures
        r@ == chars@,
{
    chars.iter().collect()
}

/// Writes the ledger file text for the given ids, in order.
pub fn encode_records(ids: &Vec<String>) -> (r: String)
    ensures
        r@ == encode_ids(ids.deep_view()),
{
    let n = ids.len();
    let mut out: Vec<char> = Vec::new();
    let mut i: usize = 0;
    while i < n
        invariant
            i <= n,
            out@ == encode_ids(ids.deep_view().take(i as int)),
        decreases n - i,
    {
        let cs = str_to_chars(ids[i].as_str());
        let m = cs.len();
        let mut j: usize = 0;
        while j < m
            invariant
                j <= m,
                cs@ == ids.deep_view()[i as int],
                out@ == encode_ids(ids.deep_view().take(i as int)) + esc_seq(cs@.take(j as int)),
            decreases m - j,
        {
            let c = cs[j];
            if c == ';' || c == '\\' {
                out.push('\\');
            }
            out.push(c);
            proof {
                assert(cs@.take(j + 1).drop_last() =~= cs@.take(j as int));
                assert(cs@.take(j + 1).last() == c);
                assert(out@ =~= encode_ids(ids.deep_view().take(i as int)) + esc_seq(
                    cs@.take(j + 1),
                ));
            }
            j += 1;
        }
        out.push(';');
        proof {
            assert(cs@.take(m as int) =~= cs@);
            assert(ids.deep_view().take(i + 1).drop_last() =~= ids.deep_view().take(i as int));
            assert(ids.deep_view().take(i + 1).last() == cs@);
            assert(out@ =~= encode_ids(ids.deep_view().take(i + 1)));
        }
        i += 1;
    }
    proof {
        assert(ids.deep_view().take(n as int) =~= ids.deep_view());
    }
    chars_to_string(&out)
}

/// Reads one record beginning at `start`: the id and the position just
/// after the record's terminator.
fn decode_one(s: &Vec<char>, start: usize) -> (r: Option<(Vec<char>, usize)>)
    requires
        start <= s@.len(),
    ensures
        match r {
            Some(p) => dec_record(s@.skip(start as int)) == Some((p.0@, p.1 - start as int))
                && start < p.1 <= s@.len(),
            None => dec_record(s@.skip(start as int)) is None,
        },
{
    let n = s.len();
    let mut cur: Vec<char> = Vec::new();
    let mut pos: usize = start;
    loop
        invariant
            start <= pos <= n,
            n == s@.len(),
            match dec_record(s@.skip(pos as int)) {
                Some(p) => dec_record(s@.skip(start as int)) == Some(
                    (cur@ + p.0, (pos - start) + p.1),
                ),
                None => dec_record(s@.skip(start as int)) is None,
            },
        decreases n - pos,
    {
        if pos == n {
            proof {
                assert(s@.skip(pos as int) =~= Seq::<char>::empty());
            }
            return None;
        }
        let c = s[pos];
        proof {
            assert(s@.skip(pos as int)[0] == c);
        }
        if c == ';' {
            proof {
                assert(dec_record(s@.skip(pos as int)) == Some((Seq::<char>::empty(), 1int)));
                assert(cur@ + Seq::<char>::empty() =~= cur@);
            }
            return Some((cur, pos + 1));
        } else if c == '\\' {
            if pos + 1 == n {
                proof {
                    assert(s@.skip(pos as int).len() == 1);
                }
                return None;
            }
            let d = s[pos + 1];
            proof {
                assert(s@.skip(pos as int)[1] == d);
                assert(s@.skip(pos as int).skip(2) =~= s@.skip(pos + 2));
                if let Some(p) = dec_record(s@.skip(pos + 2)) {
                    assert(cur@ + (seq![d] + p.0) =~= (cur@ + seq![d]) + p.0);
                }
            }
            cur.push(d);
            pos = pos + 2;
        } else {
            proof {
                assert(s@.skip(pos as int).skip(1) =~= s@.skip(pos + 1));
                if let Some(p) = dec_record(s@.skip(pos + 1)) {
                    assert(cur@ + (seq![c] + p.0) =~= (cur@ + seq![c]) + p.0);
                }
            }
            cur.push(c);
            pos = pos + 1;
        }
    }
}

/// Reads a whole ledger file text back into its ids.  `None` exactly when
/// the text is not a sequence of terminated records.
pub fn decode_records(s: &str) -> (r: Option<Vec<String>>)
    ensures
        match r {
            Some(ids) => decode_ids(s@) == Some(ids.deep_view()),
            None => decode_ids(s@) is None,
        },
{
    let chars = str_to_chars(s);
    let n = chars.len();
    let mut out: Vec<String> = Vec::new();
    let mut pos: usize = 0;
    proof {
        assert(s@.skip(0) =~= s@);
        assert(out.deep_view() =~= Seq::<Seq<char>>::empty());
    }
    loop
        invariant
            pos <= n,
            n == s@.len(),
            chars@ == s@,
            match decode_ids(s@.skip(pos as int)) {
                Some(rest) => decode_ids(s@) == Some(out.deep_view() + rest),
                None => decode_ids(s@) is None,
            },
        decreases n - pos,
    {
        if pos == n {
            proof {
                assert(s@.skip(pos as int) =~= Seq::<char>::empty());
                assert(out.deep_view() + Seq::<Seq<char>>::empty() =~= out.deep_view());
            }
            return Some(out);
        }
        match decode_one(&chars, pos) {
            None => {
                proof {
                    assert(s@.skip(pos as int).len() > 0);
                }
                return None;
            },
            Some((id, end)) => {
                proof {
                    let tail = s@.skip(pos as int);
                    assert(tail.len() > 0);
                    assert(tail.skip(end - pos) =~= s@.skip(end as int));
                    let ghost prev = out.deep_view();
                    if let Some(rest) = decode_ids(s@.skip(end as int)) {
                        assert(prev + (seq![id@] + rest) =~= (prev + seq![id@]) + rest);
                    }
                }
                let ghost prev = out.deep_view();
                out.push(chars_to_string(&id));
                proof {
                    assert(out.deep_view() =~~= prev + seq![id@]);
                }
                pos = end;
            },
        }
    }
}

} // verus!
