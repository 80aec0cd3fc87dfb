//! Listing the keys of the key/value store page by page.
use vstd::prelude::*;

verus! {

/// One page of keys, and the cursor of the next page when there is one.
pub struct KeyPage {
    pub keys: Vec<String>,
    pub cursor: Option<u64>,
}

/// The keys listed so far, the cursor to ask with next, and whether the
/// listing is over.
pub struct KeyScan {
    pub keys: Vec<String>,
    pub cursor: Option<u64>,
    pub finished: bool,
}

impl KeyScan {
    /// A listing that has not asked for any page yet.
    pub fn new() -> (s: KeyScan)
        ensures
            s.keys@ == Seq::<String>::empty(),
            s.cursor is None,
            !s.finished,
    {
        KeyScan { keys: Vec::new(), cursor: None, finished: false }
    }

    /// Takes in the answer to the request for the next page: a page adds its
    /// keys and moves the cursor, and ends the listing when it has no cursor;
    /// an error ends the listing and adds nothing.
    pub fn absorb(&mut self, page: Result<KeyPage, String>)
        requires
            !old(self).finished,
        ensures
            match page {
                Ok(p) => {
                    &&& final(self).keys@ == old(self).keys@ + p.keys@
                    &&& final(self).cursor == p.cursor
                    &&& final(self).finished == p.cursor is None
                },
                Err(_) => {
                    &&& final(self).keys@ == old(self).keys@
                    &&& final(self).cursor == old(self).cursor
                    &&& final(self).finished
                },
            },
    {
        match page {
            Ok(p) => {
                let mut more = p.keys;
                self.keys.append(&mut more);
                self.finished = p.cursor.is_none();
                self.cursor = p.cursor;
            },
            Err(_) => {
                self.finished = true;
            },
        }
    }
}

/// The `(key, value)` pairs kept from reading each listed key: a key whose
/// read gave a value is kept with it; a key that is absent or whose read
/// failed is dropped.
pub open spec fn kept_spec(keys: Seq<String>, reads: Seq<Result<Option<String>, String>>) -> Seq<
    (Seq<char>, Seq<char>),
>
    decreases keys.len(),
{
    if keys.len() == 0 || reads.len() == 0 {
        Seq::empty()
    } else {
        let rest = kept_spec(keys.drop_last(), reads.drop_last());
        match reads.last() {
            Ok(Some(v)) => rest.push((keys.last()@, v@)),
            _ => rest,
        }
    }
}

/// The read of the `i`th listed key gave a value, and `p` is that key with
/// that value.
pub open spec fn read_gives(
    keys: Seq<String>,
    reads: Seq<Result<Option<String>, String>>,
    i: int,
    p: (Seq<char>, Seq<char>),
) -> bool {
    reads[i] matches Ok(Some(v)) && p == (keys[i]@, v@)
}

/// `p` is some listed key with the value its read gave.
pub open spec fn read_of_some_key(
    keys: Seq<String>,
    reads: Seq<Result<Option<String>, String>>,
    p: (Seq<char>, Seq<char>),
) -> bool {
    exists|i: int| 0 <= i < keys.len() && #[trigger] read_gives(keys, reads, i, p)
}

/// Every listed key whose read gave a value is kept, with that value, the
/// last listed key included.
pub proof fn lemma_kept_every_value(
    keys: Seq<String>,
    reads: Seq<Result<Option<String>, String>>,
    i: int,
)
    requires
        keys.len() == reads.len(),
        0 <= i < keys.len(),
    ensures
        reads[i] matches Ok(Some(v)) ==> kept_spec(keys, reads).contains((keys[i]@, v@)),
    decreases keys.len(),
{
    let k = kept_spec(keys, reads);
    match reads[i] {
        Ok(Some(v)) => {
            if i == keys.len() - 1 {
                assert(k[k.len() - 1] == (keys[i]@, v@));
            } else {
                lemma_kept_every_value(keys.drop_last(), reads.drop_last(), i);
                let rest = kept_spec(keys.drop_last(), reads.drop_last());
                assert(reads.drop_last()[i] == reads[i]);
                let j = choose|j: int| 0 <= j < rest.len() && rest[j] == (keys[i]@, v@);
                assert(k[j] == rest[j]);
            }
        },
        _ => {},
    }
}

/// Nothing is kept but listed keys with the value their read gave: each kept
/// pair is some listed key whose read gave a value, with that value; and no
/// more pairs are kept than keys were listed.
pub proof fn lemma_kept_only_values(keys: Seq<String>, reads: Seq<Result<Option<String>, String>>)
    requires
        keys.len() == reads.len(),
    ensures
        kept_spec(keys, reads).len() <= keys.len(),
        forall|j: int|
            0 <= j < kept_spec(keys, reads).len() ==> #[trigger] read_of_some_key(
                keys,
                reads,
                kept_spec(keys, reads)[j],
            ),
    decreases keys.len(),
{
    let k = kept_spec(keys, reads);
    if keys.len() == 0 {
        assert(k =~= Seq::<(Seq<char>, Seq<char>)>::empty());
    } else {
        let ks = keys.drop_last();
        let rs = reads.drop_last();
        lemma_kept_only_values(ks, rs);
        let rest = kept_spec(ks, rs);
        let last = keys.len() - 1;
        assert forall|j: int| 0 <= j < k.len() implies #[trigger] read_of_some_key(keys, reads, k[j]) by {
            if j < rest.len() {
                assert(k[j] == rest[j]);
                assert(read_of_some_key(ks, rs, rest[j]));
                let i = choose|i: int| 0 <= i < ks.len() && #[trigger] read_gives(ks, rs, i, rest[j]);
                assert(ks[i] == keys[i] && rs[i] == reads[i]);
                assert(read_gives(keys, reads, i, k[j]));
            } else {
                match reads[last] {
                    Ok(Some(v)) => {
                        assert(k == rest.push((keys[last]@, v@)));
                        assert(read_gives(keys, reads, last, k[j]));
                    },
                    _ => {
                        assert(k == rest);
                    },
                }
            }
        }
    }
}

/// When every listed key's read gives a value, every key is kept, in the
/// order listed: the `i`th kept pair is the `i`th key with its value.
pub proof fn lemma_kept_all_values(keys: Seq<String>, reads: Seq<Result<Option<String>, String>>)
    requires
        keys.len() == reads.len(),
        forall|i: int| 0 <= i < reads.len() ==> #[trigger] reads[i] matches Ok(Some(_)),
    ensures
        kept_spec(keys, reads).len() == keys.len(),
        forall|i: int| 0 <= i < keys.len() ==> #[trigger] read_gives(keys, reads, i, kept_spec(keys, reads)[i]),
    decreases keys.len(),
{
    if keys.len() > 0 {
        let (ks, rs) = (keys.drop_last(), reads.drop_last());
        assert forall|i: int| 0 <= i < rs.len() implies #[trigger] rs[i] matches Ok(Some(_)) by {
            assert(rs[i] == reads[i]);
        }
        lemma_kept_all_values(ks, rs);
        let k = kept_spec(keys, reads);
        let last = reads.len() - 1;
        assert(reads[last] matches Ok(Some(_)));
        assert forall|i: int| 0 <= i < keys.len() implies #[trigger] read_gives(keys, reads, i, k[i]) by {
            if i < ks.len() {
                assert(read_gives(ks, rs, i, kept_spec(ks, rs)[i]));
            }
        }
    }
}

/// The texts of a list of `(key, value)` pairs.
pub open spec fn pair_texts(ps: Seq<(String, String)>) -> Seq<(Seq<char>, Seq<char>)> {
    ps.map_values(|p: (String, String)| (p.0@, p.1@))
}

/// Keeps, in order, each listed key whose read gave a value, with that value.
pub fn kept_values(keys: &Vec<String>, reads: &Vec<Result<Option<String>, String>>) -> (r: Vec<
    (String, String),
>)
    requires
        keys@.len() == reads@.len(),
    ensures
        pair_texts(r@) == kept_spec(keys@, reads@),
{
    let mut out: Vec<(String, String)> = Vec::new();
    let mut i: usize = 0;
    while i < keys.len()
        invariant
            keys@.len() == reads@.len(),
            i <= keys@.len(),
            pair_texts(out@) == kept_spec(keys@.take(i as int), reads@.take(i as int)),
        decreases keys.len() - i,
    {
        let ghost before = out@;
        assert(keys@.take(i + 1).drop_last() =~= keys@.take(i as int));
        assert(reads@.take(i + 1).drop_last() =~= reads@.take(i as int));
        match &reads[i] {
            Ok(Some(v)) => {
                out.push((keys[i].clone(), v.clone()));
                assert(pair_texts(out@) =~= pair_texts(before).push((keys@[i as int]@, v@)));
            },
            _ => {},
        }
        i = i + 1;
    }
    assert(keys@.take(keys@.len() as int) =~= keys@);
    assert(reads@.take(reads@.len() as int) =~= reads@);
    out
}

} // verus!
