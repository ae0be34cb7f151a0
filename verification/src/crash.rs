//! The crash store: append-only records of fuzzer-produced crashing
//! inputs, at most one per `(collection, file name)` pair.

use vstd::prelude::*;

use crate::model::Crash;
use crate::model::CrashMsg;
use crate::model::CrashV;
use crate::model::views_of;
use crate::store::Store;
use crate::store::StoreV;
use crate::store::has_crash;
use crate::store::store_inv;
use crate::store::statuses_consistent;
use crate::wrappers::sha3_256_of;

verus! {

/// The sixteen lower-case hex digits, in value order.
pub open spec fn hex_digits() -> Seq<char> {
    seq!['0', '1', '2', '3', '4', '5', '6', '7', '8', '9', 'a', 'b', 'c', 'd', 'e', 'f']
}

/// Lower-case hex rendering of a byte string, two digits per byte.
pub open spec fn hex_of(bytes: Seq<u8>) -> Seq<char>
    decreases bytes.len(),
{
    if bytes.len() == 0 {
        Seq::empty()
    } else {
        hex_of(bytes.drop_last()) + seq![
            hex_digits()[bytes.last() as int / 16],
            hex_digits()[bytes.last() as int % 16],
        ]
    }
}

/// One hex digit as a string slice.
pub(crate) fn hex_char_str(n: u8) -> (s: &'static str)
    requires
        n < 16,
    ensures
        s@ =~= seq![hex_digits()[n as int]],
{
    proof {
        reveal_strlit("0");
        reveal_strlit("1");
        reveal_strlit("2");
        reveal_strlit("3");
        reveal_strlit("4");
        reveal_strlit("5");
        reveal_strlit("6");
        reveal_strlit("7");
        reveal_strlit("8");
        reveal_strlit("9");
        reveal_strlit("a");
        reveal_strlit("b");
        reveal_strlit("c");
        reveal_strlit("d");
        reveal_strlit("e");
        reveal_strlit("f");
    }
    match n {
        0 => "0",
        1 => "1",
        2 => "2",
        3 => "3",
        4 => "4",
        5 => "5",
        6 => "6",
        7 => "7",
        8 => "8",
        9 => "9",
        10 => "a",
        11 => "b",
        12 => "c",
        13 => "d",
        14 => "e",
        _ => "f",
    }
}

/// Lower-case hex rendering of a byte string.
#[verifier::loop_isolation(false)]
pub fn hex_string(bytes: &Vec<u8>) -> (s: String)
    ensures
        s@ == hex_of(bytes@),
{
    let mut out = String::new();
    let n = bytes.len();
    for i in 0..n
        invariant
            n == bytes@.len(),
            out@ == hex_of(bytes@.take(i as int)),
    {
        proof {
            assert(bytes@.take(i + 1).drop_last() =~= bytes@.take(i as int));
            assert(bytes@.take(i + 1).last() == bytes@[i as int]);
        }
        let b = bytes[i];
        out.append(hex_char_str(b / 16));
        out.append(hex_char_str(b % 16));
        proof {
            assert(out@ =~= hex_of(bytes@.take(i + 1)));
        }
    }
    proof {
        assert(bytes@.take(n as int) =~= bytes@);
    }
    out
}

/// What recording one crash does: nothing if the pair is already present,
/// else one appended row.
pub open spec fn new_crash_spec(
    s: StoreV,
    name: Seq<char>,
    coll: Seq<char>,
    analyzed: Option<Seq<char>>,
    hash: Seq<char>,
    size: int,
    guid: Seq<char>,
    date: Seq<char>,
) -> StoreV {
    if has_crash(s.crashes, coll, name) {
        s
    } else {
        StoreV {
            crashes: s.crashes.push(
                CrashV {
                    guid: guid,
                    name: name,
                    collection_guid: coll,
                    analyzed: analyzed,
                    hash: hash,
                    creation_date: date,
                    size: size,
                },
            ),
            ..s
        }
    }
}

/// Recording the same pair twice is a no-op the second time, whatever
/// guid and date the second attempt would have drawn.
pub proof fn lemma_new_crash_idempotent(
    s: StoreV,
    name: Seq<char>,
    coll: Seq<char>,
    analyzed: Option<Seq<char>>,
    hash: Seq<char>,
    size: int,
    g1: Seq<char>,
    d1: Seq<char>,
    g2: Seq<char>,
    d2: Seq<char>,
)
    ensures
        new_crash_spec(
            new_crash_spec(s, name, coll, analyzed, hash, size, g1, d1),
            name,
            coll,
            analyzed,
            hash,
            size,
            g2,
            d2,
        ) == new_crash_spec(s, name, coll, analyzed, hash, size, g1, d1),
{
    let s1 = new_crash_spec(s, name, coll, analyzed, hash, size, g1, d1);
    if !has_crash(s.crashes, coll, name) {
        assert(s1.crashes.last().collection_guid == coll && s1.crashes.last().name == name);
        assert(s1.crashes[s1.crashes.len() - 1].collection_guid == coll);
        assert(has_crash(s1.crashes, coll, name));
    }
}

impl Store {
    /// Record one crash file: hash its content, and insert a row unless
    /// the `(collection, name)` pair is already recorded.  A repeated
    /// report of the same file is a no-op.
    pub fn new_crash(&mut self, crash: &CrashMsg, content: &Vec<u8>)
        requires
            store_inv(old(self)@),
        ensures
            store_inv(final(self)@),
            statuses_consistent(old(self)@) ==> statuses_consistent(final(self)@),
            exists|g: Seq<char>, d: Seq<char>|
                g.len() == 36 && final(self)@ == new_crash_spec(
                    old(self)@,
                    crash.name@,
                    crash.job_guid@,
                    crash@.analyzed,
                    hex_of(sha3_256_of(content@)),
                    content@.len() as int,
                    g,
                    d,
                ),
    {
        let n = self.crashes.len();
        for i in 0..n
            invariant
                n == self@.crashes.len(),
                self@ == old(self)@,
                store_inv(self@),
                forall|j: int|
                    0 <= j < i ==> !((#[trigger] self@.crashes[j]).collection_guid
                        == crash.job_guid@ && self@.crashes[j].name == crash.name@),
        {
            if self.crashes[i].collection_guid == crash.job_guid && self.crashes[i].name
                == crash.name {
                proof {
                    assert(self@.crashes[i as int].collection_guid == crash.job_guid@);
                    assert(has_crash(self@.crashes, crash.job_guid@, crash.name@));
                    let g0 = Seq::new(36, |x: int| 'a');
                    assert(g0.len() == 36);
                    assert(final(self)@ == new_crash_spec(
                        old(self)@,
                        crash.name@,
                        crash.job_guid@,
                        crash@.analyzed,
                        hex_of(sha3_256_of(content@)),
                        content@.len() as int,
                        g0,
                        Seq::empty(),
                    ));
                }
                return ;
            }
        }
        let guid = crate::wrappers::fresh_guid();
        let digest = crate::wrappers::sha3_256(content.as_slice());
        let hash = hex_string(&digest);
        let now = crate::wrappers::now_utc_string();
        let row = Crash {
            guid: guid,
            name: crash.name.clone(),
            collection_guid: crash.job_guid.clone(),
            analyzed: match &crash.analyzed {
                Some(s) => Some(s.clone()),
                None => None,
            },
            hash: hash,
            creation_date: now,
            size: content.len() as u64,
        };
        let ghost rowv = row@;
        let ghost pre = self@;
        proof {
            assert(!has_crash(pre.crashes, crash.job_guid@, crash.name@));
        }
        self.crashes.push(row);
        proof {
            assert(self@.crashes =~= pre.crashes.push(rowv));
            assert(final(self)@ =~= new_crash_spec(
                old(self)@,
                crash.name@,
                crash.job_guid@,
                crash@.analyzed,
                hex_of(sha3_256_of(content@)),
                content@.len() as int,
                rowv.guid,
                rowv.creation_date,
            ));
            let crashes2 = final(self)@.crashes;
            assert forall|p: int, q: int|
                0 <= p < q < crashes2.len() implies !((#[trigger] crashes2[p]).collection_guid == (
            #[trigger] crashes2[q]).collection_guid && crashes2[p].name == crashes2[q].name) by {
                if q == crashes2.len() - 1 {
                    assert(crashes2[p] == pre.crashes[p]);
                }
            }
            assert(store_inv(final(self)@));
        }
    }

    /// All crash rows, in store order.
    pub fn get_all_crashes(&self) -> (r: Vec<Crash>)
        ensures
            views_of(r@) == self@.crashes,
    {
        let mut out: Vec<Crash> = Vec::new();
        let n = self.crashes.len();
        for i in 0..n
            invariant
                n == self@.crashes.len(),
                out@.len() == i,
                forall|j: int| 0 <= j < i ==> (#[trigger] out@[j])@ == self@.crashes[j],
        {
            let c = self.crashes[i].duplicate();
            assert(c@ == self@.crashes[i as int]);
            out.push(c);
        }
        proof {
            assert(views_of(out@) =~= self@.crashes);
        }
        out
    }

    /// The crash rows of one collection, in store order.
    pub fn get_all_crashes_by_job(&self, job_guid: &String) -> (r: Vec<Crash>)
        ensures
            views_of(r@) == crashes_of(self@.crashes, job_guid@),
    {
        let mut out: Vec<Crash> = Vec::new();
        let n = self.crashes.len();
        for i in 0..n
            invariant
                n == self@.crashes.len(),
                views_of(out@) == crashes_of(self@.crashes.take(i as int), job_guid@),
        {
            proof {
                assert(self@.crashes.take(i + 1).drop_last() =~= self@.crashes.take(i as int));
                assert(self@.crashes.take(i + 1).last() == self@.crashes[i as int]);
            }
            let ghost pre = views_of(out@);
            if self.crashes[i].collection_guid == *job_guid {
                let c = self.crashes[i].duplicate();
                assert(c@ == self@.crashes[i as int]);
                out.push(c);
                proof {
                    assert(views_of(out@) =~= pre.push(self@.crashes[i as int]));
                }
            } else {
                proof {
                    assert(views_of(out@) =~= pre);
                }
            }
        }
        proof {
            assert(self@.crashes.take(n as int) =~= self@.crashes);
        }
        out
    }

    /// How many crashes are recorded.
    pub fn get_crash_stats(&self) -> (r: crate::model::CrashStats)
        requires
            self@.crashes.len() <= u64::MAX,
        ensures
            r.total == self@.crashes.len(),
    {
        crate::model::CrashStats { total: self.crashes.len() as u64 }
    }

    /// The crash row with this guid, when one exists.
    pub fn get_crash_info(&self, guid: &String) -> (r: Option<Crash>)
        ensures
            ({
                let k = crash_index(self@.crashes, guid@);
                match r {
                    None => k == -1,
                    Some(c) => 0 <= k && c@ == self@.crashes[k],
                }
            }),
    {
        let n = self.crashes.len();
        for i in 0..n
            invariant
                n == self@.crashes.len(),
                forall|j: int| 0 <= j < i ==> (#[trigger] self@.crashes[j]).guid != guid@,
        {
            if self.crashes[i].guid == *guid {
                proof {
                    crate::seq_util::lemma_first_where_is(
                        self@.crashes,
                        |c: CrashV| c.guid == guid@,
                        i as int,
                    );
                }
                return Some(self.crashes[i].duplicate());
            }
        }
        proof {
            crate::seq_util::lemma_first_where_none(self@.crashes, |c: CrashV| c.guid == guid@);
        }
        None
    }
}

/// The crash rows of one collection, in order.
pub open spec fn crashes_of(crashes: Seq<CrashV>, coll: Seq<char>) -> Seq<CrashV>
    decreases crashes.len(),
{
    if crashes.len() == 0 {
        Seq::empty()
    } else {
        let rest = crashes_of(crashes.drop_last(), coll);
        if crashes.last().collection_guid == coll {
            rest.push(crashes.last())
        } else {
            rest
        }
    }
}

/// Index of the crash row with this guid, `-1` when absent.
pub open spec fn crash_index(crashes: Seq<CrashV>, guid: Seq<char>) -> int {
    crate::seq_util::first_where(crashes, |c: CrashV| c.guid == guid)
}

} // verus!
