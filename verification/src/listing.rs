//! Construction of a directory listing page from scanned entries.
//!
//! The entries of one directory are partitioned into directories and files,
//! each group is sorted by name in codepoint order, and the directories are
//! placed before the files. The page carries the current path label and a
//! parent link, absent at the root.

use crate::paths::join_segments;
use crate::paths::parent_path;
use crate::paths::spec_join;
use crate::paths::views_of;
use crate::strutil::lemma_lex_leq_total;
use crate::strutil::lemma_lex_leq_trans;
use crate::strutil::lex_leq;
use crate::strutil::str_leq;
use vstd::multiset::Multiset;
use vstd::prelude::*;
use vstd::relations::sorted_by;
use vstd::string::*;

verus! {

/// One directory entry as captured by a filesystem scan: its name, whether
/// it is a directory, its size in bytes (files only), and a best-effort
/// modification-time label.
pub struct EntryInfo {
    pub name: String,
    pub is_dir: bool,
    pub size: Option<u64>,
    pub modified: Option<String>,
}

/// Order on entries: by name, lexicographically by codepoint.
pub open spec fn entry_leq(a: EntryInfo, b: EntryInfo) -> bool {
    lex_leq(a.name@, b.name@)
}

/// The entry order as a relation value, for `sorted_by`.
pub open spec fn entry_order() -> spec_fn(EntryInfo, EntryInfo) -> bool {
    |a: EntryInfo, b: EntryInfo| entry_leq(a, b)
}

pub open spec fn is_dir_pred() -> spec_fn(EntryInfo) -> bool {
    |e: EntryInfo| e.is_dir
}

pub open spec fn is_file_pred() -> spec_fn(EntryInfo) -> bool {
    |e: EntryInfo| !e.is_dir
}

/// The subsequence of directory entries, in scan order.
pub open spec fn dirs_of(s: Seq<EntryInfo>) -> Seq<EntryInfo> {
    s.filter(is_dir_pred())
}

/// The subsequence of file entries, in scan order.
pub open spec fn files_of(s: Seq<EntryInfo>) -> Seq<EntryInfo> {
    s.filter(is_file_pred())
}

/// A directory listing page: directories first, then files, each group
/// sorted by name; the current path label; and the parent link.
pub struct ListingPage {
    pub entries: Vec<EntryInfo>,
    pub parent: Option<String>,
    pub current: String,
}

fn insert_sorted(v: &mut Vec<EntryInfo>, e: EntryInfo)
    requires
        sorted_by(old(v)@, entry_order()),
    ensures
        sorted_by(final(v)@, entry_order()),
        final(v)@.to_multiset() == old(v)@.to_multiset().insert(e),
{
    broadcast use vstd::seq_lib::group_to_multiset_ensures;

    let mut i: usize = 0;
    while i < v.len() && str_leq(v[i].name.as_str(), e.name.as_str())
        invariant
            i <= v@.len(),
            forall|j: int| 0 <= j < i ==> entry_leq(#[trigger] v@[j], e),
        decreases v@.len() - i,
    {
        i = i + 1;
    }
    proof {
        if i < v@.len() {
            lemma_lex_leq_total(v@[i as int].name@, e.name@);
            assert(entry_leq(e, v@[i as int]));
        }
    }
    let ghost oldv = v@;
    let ghost at = i as int;
    v.insert(i, e);
    proof {
        assert(v@ == oldv.insert(at, e));
        assert forall|p: int, q: int|
            0 <= p < q < v@.len() implies entry_order()(v@[p], v@[q]) by {
            let x = v@[p];
            let y = v@[q];
            if q < at {
                assert(x == oldv[p]);
                assert(y == oldv[q]);
                assert(entry_order()(oldv[p], oldv[q]));
            } else if q == at {
                assert(x == oldv[p]);
                assert(entry_leq(x, e));
            } else if p == at {
                assert(x == e);
                assert(y == oldv[q - 1]);
                assert(at < oldv.len());
                if q - 1 > at {
                    assert(entry_order()(oldv[at], oldv[q - 1]));
                    lemma_lex_leq_trans(e.name@, oldv[at].name@, oldv[q - 1].name@);
                } else {
                    assert(y == oldv[at]);
                }
            } else if p < at {
                assert(x == oldv[p]);
                assert(y == oldv[q - 1]);
                assert(entry_leq(x, e));
                if q - 1 == at {
                    assert(entry_leq(e, y));
                    lemma_lex_leq_trans(x.name@, e.name@, y.name@);
                } else {
                    assert(entry_order()(oldv[p], oldv[q - 1]));
                }
            } else {
                assert(x == oldv[p - 1]);
                assert(y == oldv[q - 1]);
                assert(entry_order()(oldv[p - 1], oldv[q - 1]));
            }
        }
    }
}

fn sort_entries(v: Vec<EntryInfo>) -> (r: Vec<EntryInfo>)
    ensures
        sorted_by(r@, entry_order()),
        r@.to_multiset() == v@.to_multiset(),
{
    broadcast use vstd::seq_lib::group_to_multiset_ensures;
    broadcast use vstd::multiset::group_multiset_axioms;

    let ghost orig = v@;
    let mut rest = v;
    let mut out: Vec<EntryInfo> = Vec::new();
    while rest.len() > 0
        invariant
            sorted_by(out@, entry_order()),
            out@.to_multiset().add(rest@.to_multiset()) == orig.to_multiset(),
        decreases rest@.len(),
    {
        broadcast use vstd::seq_lib::group_to_multiset_ensures;
        broadcast use vstd::multiset::group_multiset_axioms;

        let ghost rest0 = rest@;
        let e = rest.pop().unwrap();
        proof {
            assert(rest0 =~= rest@.push(e));
            assert(rest0.to_multiset() == rest@.to_multiset().insert(e));
        }
        let ghost out0 = out@;
        insert_sorted(&mut out, e);
        proof {
            assert(out@.to_multiset() == out0.to_multiset().insert(e));
            assert(out@.to_multiset().add(rest@.to_multiset())
                =~= out0.to_multiset().add(rest0.to_multiset()));
        }
    }
    proof {
        assert(rest@.to_multiset() =~= Multiset::<EntryInfo>::empty()) by {
            assert(rest@ =~= Seq::<EntryInfo>::empty());
            vstd::seq_lib::lemma_multiset_commutative(Seq::<EntryInfo>::empty(), Seq::<EntryInfo>::empty());
            assert(Seq::<EntryInfo>::empty().to_multiset().len() == 0);
        }
        assert(out@.to_multiset() =~= orig.to_multiset());
    }
    out
}

/// Every entry is either a directory or a file, so the two groups together
/// are exactly as long as the scan.
proof fn lemma_partition_len(s: Seq<EntryInfo>)
    ensures
        dirs_of(s).len() + files_of(s).len() == s.len(),
    decreases s.len(),
{
    if s.len() == 0 {
    } else {
        lemma_partition_len(s.drop_last());
        s.drop_last().lemma_filter_push(s.last(), is_dir_pred());
        s.drop_last().lemma_filter_push(s.last(), is_file_pred());
        assert(s.drop_last().push(s.last()) =~= s);
    }
}

/// Builds the listing page for the directory named by `segs` from its
/// scanned entries: directories first, then files, each group sorted by
/// name, with the current path label and the parent link (absent at the
/// root). An empty scan yields an empty page.
pub fn build_listing(entries: Vec<EntryInfo>, segs: &Vec<String>) -> (page: ListingPage)
    ensures
        page.entries@.len() == entries@.len(),
        page.entries@.subrange(0, dirs_of(entries@).len() as int).to_multiset()
            == dirs_of(entries@).to_multiset(),
        page.entries@.skip(dirs_of(entries@).len() as int).to_multiset()
            == files_of(entries@).to_multiset(),
        sorted_by(page.entries@.subrange(0, dirs_of(entries@).len() as int), entry_order()),
        sorted_by(page.entries@.skip(dirs_of(entries@).len() as int), entry_order()),
        forall|i: int|
            0 <= i < dirs_of(entries@).len() ==> (#[trigger] page.entries@[i]).is_dir,
        forall|i: int|
            dirs_of(entries@).len() <= i < page.entries@.len()
                ==> !(#[trigger] page.entries@[i]).is_dir,
        page.current@ == spec_join(views_of(segs@)),
        segs@.len() == 0 ==> page.parent is None,
        segs@.len() > 0 ==> (page.parent matches Some(p)
            && p@ == spec_join(views_of(segs@).drop_last())),
{
    broadcast use vstd::seq_lib::group_to_multiset_ensures;

    let ghost orig = entries@;
    let mut rest = entries;
    let mut dirs: Vec<EntryInfo> = Vec::new();
    let mut files: Vec<EntryInfo> = Vec::new();
    let ghost mut k: int = 0;
    proof {
        assert(orig.take(0) =~= Seq::<EntryInfo>::empty());
        assert(dirs_of(orig.take(0)) =~= Seq::<EntryInfo>::empty());
        assert(files_of(orig.take(0)) =~= Seq::<EntryInfo>::empty());
    }
    while rest.len() > 0
        invariant
            0 <= k <= orig.len(),
            rest@ == orig.skip(k),
            dirs@ == dirs_of(orig.take(k)),
            files@ == files_of(orig.take(k)),
        decreases rest@.len(),
    {
        let e = rest.remove(0);
        proof {
            assert(e == orig[k]);
            assert(rest@ =~= orig.skip(k + 1));
            assert(orig.take(k + 1) =~= orig.take(k).push(e));
            orig.take(k).lemma_filter_push(e, is_dir_pred());
            orig.take(k).lemma_filter_push(e, is_file_pred());
        }
        if e.is_dir {
            dirs.push(e);
        } else {
            files.push(e);
        }
        proof {
            k = k + 1;
        }
    }
    proof {
        assert(orig.take(k) =~= orig);
        assert(dirs@ == dirs_of(orig));
        assert(files@ == files_of(orig));
    }
    let ghost ndirs = dirs_of(orig).len() as int;
    let ghost nfiles = files_of(orig).len() as int;
    let mut result = sort_entries(dirs);
    let mut sorted_files = sort_entries(files);
    let ghost sd0 = result@;
    let ghost sf0 = sorted_files@;
    proof {
        assert(sd0.len() == ndirs) by {
            assert(sd0.to_multiset().len() == sd0.len());
            assert(dirs_of(orig).to_multiset().len() == dirs_of(orig).len());
        }
        assert(sf0.len() == nfiles) by {
            assert(sf0.to_multiset().len() == sf0.len());
            assert(files_of(orig).to_multiset().len() == files_of(orig).len());
        }
    }
    result.append(&mut sorted_files);
    let current = join_segments(segs);
    let parent = parent_path(segs);
    let page = ListingPage { entries: result, parent, current };
    proof {
        let sd = page.entries@.subrange(0, ndirs);
        let sf = page.entries@.skip(ndirs);
        assert(sd =~= sd0);
        assert(sf =~= sf0);
        assert(page.entries@.len() == ndirs + nfiles);
        assert(orig.len() == ndirs + nfiles) by {
            lemma_partition_len(orig);
        }
        assert forall|i: int| 0 <= i < ndirs implies (#[trigger] page.entries@[i]).is_dir by {
            let x = page.entries@[i];
            assert(sd[i] == x);
            assert(sd.contains(x));
            assert(sd.to_multiset().count(x) > 0);
            assert(dirs_of(orig).to_multiset().count(x) > 0);
            assert(dirs_of(orig).contains(x));
            let j = choose|j: int| 0 <= j < dirs_of(orig).len() && dirs_of(orig)[j] == x;
            orig.lemma_filter_pred(is_dir_pred(), j);
        }
        assert forall|i: int| ndirs <= i < page.entries@.len()
            implies !(#[trigger] page.entries@[i]).is_dir by {
            let x = page.entries@[i];
            assert(sf[i - ndirs] == x);
            assert(sf.contains(x));
            assert(sf.to_multiset().count(x) > 0);
            assert(files_of(orig).to_multiset().count(x) > 0);
            assert(files_of(orig).contains(x));
            let j = choose|j: int| 0 <= j < files_of(orig).len() && files_of(orig)[j] == x;
            orig.lemma_filter_pred(is_file_pred(), j);
        }
    }
    page
}

} // verus!
