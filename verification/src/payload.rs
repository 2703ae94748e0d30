use vstd::prelude::*;

use crate::utils::{split_sep, lemma_split_sep_step, lemma_split_sep_whole, push_char};

verus! {

/// Lexicographic order on strings, by code point.
pub open spec fn seq_char_le(a: Seq<char>, b: Seq<char>) -> bool
    decreases a.len(),
{
    if a.len() == 0 {
        true
    } else if b.len() == 0 {
        false
    } else if a[0] == b[0] {
        seq_char_le(a.drop_first(), b.drop_first())
    } else {
        (a[0] as u32) < (b[0] as u32)
    }
}

pub proof fn lemma_seq_char_le_total(a: Seq<char>, b: Seq<char>)
    ensures
        seq_char_le(a, b) || seq_char_le(b, a),
    decreases a.len(),
{
    if a.len() != 0 && b.len() != 0 {
        if a[0] == b[0] {
            lemma_seq_char_le_total(a.drop_first(), b.drop_first());
        } else {
            vstd::utf8::char_u32_cast(a[0], a[0] as u32);
            vstd::utf8::char_u32_cast(b[0], b[0] as u32);
        }
    }
}

pub proof fn lemma_seq_char_le_refl(a: Seq<char>)
    ensures
        seq_char_le(a, a),
    decreases a.len(),
{
    if a.len() != 0 {
        lemma_seq_char_le_refl(a.drop_first());
    }
}

pub proof fn lemma_seq_char_le_antisym(a: Seq<char>, b: Seq<char>)
    requires
        seq_char_le(a, b),
        seq_char_le(b, a),
    ensures
        a == b,
    decreases a.len(),
{
    if a.len() == 0 {
        assert(b.len() == 0);
        assert(a =~= b);
    } else {
        assert(b.len() != 0);
        if a[0] == b[0] {
            lemma_seq_char_le_antisym(a.drop_first(), b.drop_first());
            assert(a.drop_first().len() == b.drop_first().len());
            assert(a.len() == b.len());
            assert forall|k: int| 0 <= k < a.len() implies a[k] == b[k] by {
                if k > 0 {
                    assert(a.drop_first()[k - 1] == a[k]);
                    assert(b.drop_first()[k - 1] == b[k]);
                }
            }
            assert(a =~= b);
        }
    }
}

pub proof fn lemma_seq_char_le_trans(a: Seq<char>, b: Seq<char>, c: Seq<char>)
    requires
        seq_char_le(a, b),
        seq_char_le(b, c),
    ensures
        seq_char_le(a, c),
    decreases a.len(),
{
    if a.len() != 0 && b.len() != 0 && c.len() != 0 {
        if a[0] == b[0] && b[0] == c[0] {
            lemma_seq_char_le_trans(a.drop_first(), b.drop_first(), c.drop_first());
        } else {
            vstd::utf8::char_u32_cast(a[0], a[0] as u32);
            vstd::utf8::char_u32_cast(b[0], b[0] as u32);
            vstd::utf8::char_u32_cast(c[0], c[0] as u32);
        }
    }
}

/// Whether `a` comes no later than `b` in the order the name list uses.
pub fn str_le(a: &str, b: &str) -> (r: bool)
    ensures
        r == seq_char_le(a@, b@),
{
    let na = a.unicode_len();
    let nb = b.unicode_len();
    let mut i: usize = 0;
    proof {
        assert(a@.skip(0) =~= a@);
        assert(b@.skip(0) =~= b@);
    }
    while i < na && i < nb
        invariant
            i <= na,
            i <= nb,
            na == a@.len(),
            nb == b@.len(),
            seq_char_le(a@, b@) == seq_char_le(a@.skip(i as int), b@.skip(i as int)),
        decreases na - i,
    {
        let ca = a.get_char(i);
        let cb = b.get_char(i);
        if ca as u32 != cb as u32 {
            proof {
                vstd::utf8::char_u32_cast(ca, ca as u32);
                vstd::utf8::char_u32_cast(cb, cb as u32);
                assert(a@.skip(i as int)[0] == ca && b@.skip(i as int)[0] == cb);
            }
            return (ca as u32) < (cb as u32);
        }
        proof {
            assert(a@.skip(i as int)[0] == ca && b@.skip(i as int)[0] == cb);
            assert(a@.skip(i as int).drop_first() =~= a@.skip(i + 1));
            assert(b@.skip(i as int).drop_first() =~= b@.skip(i + 1));
        }
        i += 1;
    }
    proof {
        if i >= na {
            assert(a@.skip(i as int).len() == 0);
        } else {
            assert(b@.skip(i as int).len() == 0);
            assert(a@.skip(i as int).len() > 0);
        }
    }
    i >= na
}

/// Splits a comma-separated argument into its pieces, in order.
pub fn split_csv(s: &str) -> (r: Vec<String>)
    ensures
        r@.len() == split_sep(s@, ',').len(),
        forall|i: int| 0 <= i < r@.len() ==> r@[i]@ == split_sep(s@, ',')[i],
{
    let ghost whole = split_sep(s@, ',');
    let n = s.unicode_len();
    let mut out: Vec<String> = Vec::new();
    let mut cur = String::new();
    let ghost mut start: int = 0;
    let mut i: usize = 0;
    proof {
        assert(s@.skip(0) =~= s@);
    }
    while i < n
        invariant
            n == s@.len(),
            0 <= start <= i <= n,
            cur@ == s@.subrange(start, i as int),
            forall|k: int| start <= k < i ==> s@[k] != ',',
            whole == split_sep(s@, ','),
            whole.len() == out@.len() + split_sep(s@.skip(start), ',').len(),
            forall|k: int| 0 <= k < out@.len() ==> whole[k] == out@[k]@,
            forall|k: int|
                0 <= k < split_sep(s@.skip(start), ',').len() ==> whole[out@.len() + k]
                    == split_sep(s@.skip(start), ',')[k],
        decreases n - i,
    {
        let c = s.get_char(i);
        if c == ',' {
            proof {
                let rest = s@.skip(start);
                assert(forall|m: int| 0 <= m < rest.len() ==> rest[m] == s@[start + m]);
                lemma_split_sep_step(rest, ',', i - start);
                assert(rest.take(i - start) =~= s@.subrange(start, i as int));
                assert(rest.skip(i - start + 1) =~= s@.skip(i + 1));
                assert(split_sep(rest, ',') == seq![cur@] + split_sep(s@.skip(i + 1), ','));
            }
            let ghost out0 = out@;
            let ghost cur0 = cur@;
            out.push(cur);
            cur = String::new();
            proof {
                let tail = split_sep(s@.skip(start), ',');
                let tail2 = split_sep(s@.skip(i + 1), ',');
                assert(tail == seq![cur0] + tail2);
                assert(tail[0] == cur0);
                assert(forall|k: int| 0 <= k < tail2.len() ==> tail[k + 1] == tail2[k]);
                assert(out@.len() == out0.len() + 1);
                assert(out@[out0.len() as int]@ == cur0);
                assert forall|k: int| 0 <= k < out@.len() implies whole[k] == out@[k]@ by {
                    if k < out0.len() {
                        assert(out@[k] == out0[k]);
                    } else {
                        assert(out@[k]@ == cur0);
                        assert(whole[out0.len() as int + 0] == tail[0]);
                    }
                }
                assert forall|k: int| 0 <= k < tail2.len() implies whole[out@.len() + k]
                    == tail2[k] by {
                    assert(whole[out0.len() as int + (k + 1)] == tail[k + 1]);
                }
                start = i + 1;
                assert(cur@ =~= s@.subrange(start, i + 1));
            }
        } else {
            push_char(&mut cur, c);
            proof {
                assert(s@.subrange(start, i + 1) =~= s@.subrange(start, i as int).push(
                    s@[i as int],
                ));
            }
        }
        i += 1;
    }
    proof {
        let rest = s@.skip(start);
        assert(forall|m: int| 0 <= m < rest.len() ==> rest[m] == s@[start + m]);
        lemma_split_sep_whole(rest, ',');
        assert(rest =~= s@.subrange(start, n as int));
        assert(split_sep(s@.skip(start), ',')[0] == rest);
    }
    out.push(cur);
    out
}

/// A name list in normal form: strictly ascending, so free of duplicates.
pub open spec fn names_normal(s: Seq<Seq<char>>) -> bool {
    forall|i: int, j: int|
        0 <= i < j < s.len() ==> seq_char_le(#[trigger] s[i], #[trigger] s[j]) && s[i] != s[j]
}

/// The names of a list of strings.
pub open spec fn names_of(v: Seq<String>) -> Seq<Seq<char>> {
    v.map(|_i: int, s: String| s@)
}

/// Splits a comma-separated argument, sorts the pieces and drops
/// duplicates: the normal form the dump works on.
pub fn normalize_names(arg: &str) -> (r: Vec<String>)
    ensures
        names_normal(names_of(r@)),
        forall|k: int| 0 <= k < r@.len() ==> split_sep(arg@, ',').contains(#[trigger] r@[k]@),
        forall|k: int|
            0 <= k < split_sep(arg@, ',').len() ==> names_of(r@).contains(
                #[trigger] split_sep(arg@, ',')[k],
            ),
{
    let pieces = split_csv(arg);
    let mut out: Vec<String> = Vec::new();
    let mut i: usize = 0;
    while i < pieces.len()
        invariant
            i <= pieces@.len(),
            pieces@.len() == split_sep(arg@, ',').len(),
            forall|k: int| 0 <= k < pieces@.len() ==> pieces@[k]@ == split_sep(arg@, ',')[k],
            names_normal(names_of(out@)),
            forall|k: int| 0 <= k < out@.len() ==> split_sep(arg@, ',').contains(#[trigger] out@[k]@),
            forall|k: int| 0 <= k < i ==> names_of(out@).contains(#[trigger] pieces@[k]@),
        decreases pieces@.len() - i,
    {
        let x = pieces[i].clone();
        assert(x@ == pieces@[i as int]@);
        let mut p: usize = 0;
        while p < out.len() && !str_le(x.as_str(), out[p].as_str())
            invariant
                p <= out@.len(),
                forall|k: int| 0 <= k < p ==> !seq_char_le(x@, #[trigger] out@[k]@),
            decreases out@.len() - p,
        {
            p += 1;
        }
        if p < out.len() && x == out[p] {
            proof {
                assert(names_of(out@).contains(pieces@[i as int]@)) by {
                    assert(names_of(out@)[p as int] == out@[p as int]@);
                    assert(names_of(out@)[p as int] == pieces@[i as int]@);
                }
            }
        } else {
            let ghost out0 = out@;
            out.insert(p, x);
            proof {
                let ns = names_of(out@);
                let ns0 = names_of(out0);
                assert(out@ == out0.insert(p as int, x));
                assert forall|k: int| 0 <= k < ns.len() implies ns[k] == (if k < p {
                    ns0[k]
                } else if k == p {
                    x@
                } else {
                    ns0[k - 1]
                }) by {
                    assert(ns[k] == out@[k]@);
                }
                // At exit of the scan, everything before `p` is strictly
                // below `x`, and `out0[p]`, when it exists, is at or above.
                assert(p < out0.len() ==> seq_char_le(x@, ns0[p as int]) && x@ != ns0[p as int]);
                assert forall|a: int, b: int| 0 <= a < b < ns.len() implies seq_char_le(
                    #[trigger] ns[a],
                    #[trigger] ns[b],
                ) && ns[a] != ns[b] by {
                    if b < p {
                        assert(ns[a] == ns0[a] && ns[b] == ns0[b]);
                    } else if a < p && b == p {
                        let aa = ns0[a];
                        assert(!seq_char_le(x@, aa));
                        lemma_seq_char_le_total(x@, aa);
                        if aa == x@ {
                            lemma_seq_char_le_refl(aa);
                        }
                    } else if a == p {
                        let bb = ns0[b - 1];
                        assert(seq_char_le(x@, ns0[p as int]) && x@ != ns0[p as int]);
                        if b - 1 > p {
                            lemma_seq_char_le_trans(x@, ns0[p as int], bb);
                            if x@ == bb {
                                lemma_seq_char_le_refl(bb);
                                lemma_seq_char_le_trans(ns0[p as int], bb, x@);
                                lemma_seq_char_le_antisym(x@, ns0[p as int]);
                            }
                        }
                    } else if a < p && b > p {
                        assert(ns[a] == ns0[a] && ns[b] == ns0[b - 1]);
                        if a == b - 1 {
                            assert(false);
                        }
                    } else {
                        assert(ns[a] == ns0[a - 1] && ns[b] == ns0[b - 1]);
                    }
                }
                assert forall|k: int| 0 <= k < out@.len() implies split_sep(arg@, ',').contains(
                    #[trigger] out@[k]@,
                ) by {
                    if k < p {
                        assert(out@[k] == out0[k]);
                    } else if k > p {
                        assert(out@[k] == out0[k - 1]);
                    } else {
                        assert(out@[k]@ == pieces@[i as int]@);
                        assert(split_sep(arg@, ',')[i as int] == pieces@[i as int]@);
                    }
                }
                assert forall|k: int| 0 <= k < i + 1 implies names_of(out@).contains(
                    #[trigger] pieces@[k]@,
                ) by {
                    let ns = names_of(out@);
                    let ns0 = names_of(out0);
                    if k < i {
                        let m = choose|m: int| 0 <= m < ns0.len() && ns0[m] == pieces@[k]@;
                        if m < p {
                            assert(ns[m] == out@[m]@ && out@[m] == out0[m]);
                        } else {
                            assert(ns[m + 1] == out@[m + 1]@ && out@[m + 1] == out0[m]);
                        }
                    } else {
                        assert(ns[p as int] == out@[p as int]@);
                    }
                }
            }
        }
        i += 1;
    }
    proof {
        assert forall|k: int|
            0 <= k < split_sep(arg@, ',').len() implies names_of(out@).contains(
            #[trigger] split_sep(arg@, ',')[k],
        ) by {
            assert(names_of(out@).contains(pieces@[k]@));
        }
    }
    out
}

/// What one entry of the remote listing carries: entries may lack any of
/// the three fields.
#[derive(Debug)]
pub struct ListedPartition {
    pub name: Option<String>,
    pub size_bytes: Option<u64>,
    pub hash: Option<String>,
}

impl View for ListedPartition {
    type V = (Option<Seq<char>>, Option<u64>, Option<Seq<char>>);

    open spec fn view(&self) -> Self::V {
        (
            match self.name {
                Some(s) => Some(s@),
                None => None,
            },
            self.size_bytes,
            match self.hash {
                Some(s) => Some(s@),
                None => None,
            },
        )
    }
}

pub open spec fn listed_views(v: Seq<ListedPartition>) -> Seq<
    (Option<Seq<char>>, Option<u64>, Option<Seq<char>>),
> {
    v.map(|_i: int, p: ListedPartition| p@)
}

/// What the collaborator's listing JSON contains: `None` when the text is
/// not such a listing, else the name, byte size and hash of each entry of
/// its partitions array, in order.
pub uninterp spec fn partition_listing_of(s: Seq<char>) -> Option<
    Seq<(Option<Seq<char>>, Option<u64>, Option<Seq<char>>)>,
>;

/// Reads the collaborator's listing JSON.
///
/// Relies on `serde_json::from_str` and the `Value` accessors `get`,
/// `as_array`, `as_str` and `as_u64`: the result is the `partitions`
/// array of the parsed document, each entry reduced to its `name`,
/// `size_bytes` and `hash` fields, absent or differently typed fields
/// read as `None`.  On failure the error carries the parser's message,
/// of which nothing is claimed.
#[verifier::external_body]
fn parse_partition_listing(s: &str) -> (r: Result<Vec<ListedPartition>, String>)
    ensures
        match r {
            Ok(v) => partition_listing_of(s@) == Some(listed_views(v@)),
            Err(_) => partition_listing_of(s@) is None,
        },
{
    let val: serde_json::Value = serde_json::from_str(s).map_err(|e| e.to_string())?;
    let arr = val.get("partitions").and_then(|v| v.as_array()).ok_or_else(
        || "'partitions' not found in listing".to_string(),
    )?;
    Ok(
        arr.iter().map(
            |p: &serde_json::Value| ListedPartition {
                name: p.get("name").and_then(|x| x.as_str()).map(|x| x.to_string()),
                size_bytes: p.get("size_bytes").and_then(|x| x.as_u64()),
                hash: p.get("hash").and_then(|x| x.as_str()).map(|x| x.to_string()),
            },
        ).collect(),
    )
}

/// One requested partition as the dump reports it.
#[derive(Debug)]
pub struct PartitionInfo {
    pub name: String,
    pub size: u64,
    pub hash: Option<String>,
    pub path: String,
}

impl View for PartitionInfo {
    type V = (Seq<char>, u64, Option<Seq<char>>, Seq<char>);

    open spec fn view(&self) -> Self::V {
        (
            self.name@,
            self.size,
            match self.hash {
                Some(ref s) => Some(s@),
                None => None,
            },
            self.path@,
        )
    }
}

pub open spec fn part_views(v: Seq<PartitionInfo>) -> Seq<
    (Seq<char>, u64, Option<Seq<char>>, Seq<char>),
> {
    v.map(|_i: int, p: PartitionInfo| p@)
}

/// The first listing entry whose name is exactly `n`.
pub open spec fn lookup_listed(
    l: Seq<(Option<Seq<char>>, Option<u64>, Option<Seq<char>>)>,
    n: Seq<char>,
) -> Option<(Option<Seq<char>>, Option<u64>, Option<Seq<char>>)>
    decreases l.len(),
{
    if l.len() == 0 {
        None
    } else if l[0].0 == Some(n) {
        Some(l[0])
    } else {
        lookup_listed(l.drop_first(), n)
    }
}

/// The dump entry built for name `n` from listing entry `e`: an absent
/// size reads as zero, and the output file is `<dir>/<n>.img`.
pub open spec fn entry_view(
    n: Seq<char>,
    e: (Option<Seq<char>>, Option<u64>, Option<Seq<char>>),
    dir: Seq<char>,
) -> (Seq<char>, u64, Option<Seq<char>>, Seq<char>) {
    (
        n,
        match e.1 {
            Some(s) => s,
            None => 0u64,
        },
        e.2,
        dir + "/"@ + n + ".img"@,
    )
}

/// The planned dump entries: one per requested name that the listing
/// carries, in request order; names the listing lacks are dropped.
pub open spec fn plan_views(
    names: Seq<Seq<char>>,
    l: Seq<(Option<Seq<char>>, Option<u64>, Option<Seq<char>>)>,
    dir: Seq<char>,
) -> Seq<(Seq<char>, u64, Option<Seq<char>>, Seq<char>)>
    decreases names.len(),
{
    if names.len() == 0 {
        Seq::empty()
    } else {
        plan_views(names.drop_last(), l, dir) + (match lookup_listed(l, names.last()) {
            Some(e) => seq![entry_view(names.last(), e, dir)],
            None => Seq::empty(),
        })
    }
}

fn name_matches(entry: &ListedPartition, name: &String) -> (r: bool)
    ensures
        r == (entry@.0 == Some(name@)),
{
    match &entry.name {
        Some(nm) => {
            let eq = *nm == *name;
            proof {
                assert(entry@.0 == Some(nm@));
            }
            eq
        },
        None => false,
    }
}

fn find_listed(listing: &Vec<ListedPartition>, name: &String) -> (r: Option<(u64, Option<String>)>)
    ensures
        match r {
            Some(pr) => lookup_listed(listed_views(listing@), name@) matches Some(e) && pr.0 == (
            match e.1 {
                Some(s) => s,
                None => 0u64,
            }) && (match pr.1 {
                Some(h) => e.2 == Some(h@),
                None => e.2 is None,
            }),
            None => lookup_listed(listed_views(listing@), name@) is None,
        },
{
    let ghost lv = listed_views(listing@);
    let mut k: usize = 0;
    proof {
        assert(lv.skip(0) =~= lv);
    }
    while k < listing.len()
        invariant
            k <= listing@.len(),
            lv == listed_views(listing@),
            lv.len() == listing@.len(),
            forall|m: int| 0 <= m < lv.len() ==> lv[m] == listing@[m]@,
            lookup_listed(lv, name@) == lookup_listed(lv.skip(k as int), name@),
        decreases listing@.len() - k,
    {
        let entry = &listing[k];
        proof {
            assert(lv.skip(k as int)[0] == lv[k as int]);
            assert(lv.skip(k as int).drop_first() =~= lv.skip(k + 1));
        }
        if name_matches(entry, name) {
            assert(lv[k as int].0 == Some(name@));
            let sz: u64 = match &entry.size_bytes {
                Some(s) => *s,
                None => 0,
            };
            let h: Option<String> = match &entry.hash {
                Some(hh) => Some(hh.clone()),
                None => None,
            };
            return Some((sz, h));
        }
        proof {
            assert(lv[k as int].0 != Some(name@));
        }
        k += 1;
    }
    None
}

/// Builds `<dir>/<name>.img`.
fn image_path(dir: &str, name: &String) -> (r: String)
    ensures
        r@ == dir@ + "/"@ + name@ + ".img"@,
{
    let mut s = String::from_str(dir);
    s.append("/");
    s.append(name.as_str());
    s.append(".img");
    s
}

/// Turns the normalized request and the remote listing into the dump
/// plan: one entry per requested name present in the listing, in request
/// order, each with the size and hash the listing gives and an output
/// path under `temp_dir`.
pub fn plan_dump(names: &Vec<String>, listing: &Vec<ListedPartition>, temp_dir: &str) -> (r: Vec<
    PartitionInfo,
>)
    ensures
        part_views(r@) == plan_views(names_of(names@), listed_views(listing@), temp_dir@),
{
    let ghost nv = names_of(names@);
    let ghost lv = listed_views(listing@);
    let mut out: Vec<PartitionInfo> = Vec::new();
    let mut i: usize = 0;
    proof {
        assert(nv.take(0) =~= Seq::<Seq<char>>::empty());
        assert(part_views(out@) =~= plan_views(nv.take(0), lv, temp_dir@));
    }
    while i < names.len()
        invariant
            i <= names@.len(),
            nv == names_of(names@),
            lv == listed_views(listing@),
            nv.len() == names@.len(),
            forall|m: int| 0 <= m < nv.len() ==> nv[m] == names@[m]@,
            part_views(out@) == plan_views(nv.take(i as int), lv, temp_dir@),
        decreases names@.len() - i,
    {
        proof {
            assert(nv.take(i + 1).drop_last() =~= nv.take(i as int));
            assert(nv.take(i + 1).last() == nv[i as int]);
        }
        let name = &names[i];
        match find_listed(listing, name) {
            Some(pr) => {
                let pi = PartitionInfo {
                    name: name.clone(),
                    size: pr.0,
                    hash: pr.1,
                    path: image_path(temp_dir, name),
                };
                let ghost out0 = out@;
                out.push(pi);
                proof {
                    assert(part_views(out@) =~= part_views(out0).push(pi@));
                    assert(part_views(out@) =~= plan_views(nv.take(i + 1), lv, temp_dir@));
                }
            },
            None => {
                proof {
                    assert(plan_views(nv.take(i + 1), lv, temp_dir@) =~= plan_views(
                        nv.take(i as int),
                        lv,
                        temp_dir@,
                    ));
                }
            },
        }
        i += 1;
    }
    proof {
        assert(nv.take(names@.len() as int) =~= nv);
    }
    out
}

/// The names of the planned entries, in plan order.
pub open spec fn plan_names(p: Seq<(Seq<char>, u64, Option<Seq<char>>, Seq<char>)>) -> Seq<
    Seq<char>,
> {
    p.map(|_i: int, e: (Seq<char>, u64, Option<Seq<char>>, Seq<char>)| e.0)
}

/// Whether the listing carries an entry under a name.
pub open spec fn listed_pred(
    l: Seq<(Option<Seq<char>>, Option<u64>, Option<Seq<char>>)>,
) -> spec_fn(Seq<char>) -> bool {
    |n: Seq<char>| lookup_listed(l, n) is Some
}

/// The planned names are exactly the requested names the listing has,
/// in request order: a name the listing lacks is dropped without an
/// error, and nothing reorders the rest.  Extraction may finish in any
/// order; the plan, and with it the reported sequence, follows the
/// request alone.
pub proof fn lemma_plan_follows_request(
    names: Seq<Seq<char>>,
    l: Seq<(Option<Seq<char>>, Option<u64>, Option<Seq<char>>)>,
    dir: Seq<char>,
)
    ensures
        plan_names(plan_views(names, l, dir)) == names.filter(listed_pred(l)),
    decreases names.len(),
{
    reveal(Seq::filter);
    let pred = listed_pred(l);
    if names.len() == 0 {
        assert(plan_names(plan_views(names, l, dir)) =~= names.filter(pred));
    } else {
        lemma_plan_follows_request(names.drop_last(), l, dir);
        let prefix = plan_views(names.drop_last(), l, dir);
        match lookup_listed(l, names.last()) {
            Some(e) => {
                let tailpiece = seq![entry_view(names.last(), e, dir)];
                assert(plan_views(names, l, dir) == prefix + tailpiece);
                assert(pred(names.last()));
                assert(names.filter(pred) == names.drop_last().filter(pred).push(names.last()));
                assert(plan_names(prefix + tailpiece) =~= names.drop_last().filter(pred).push(
                    names.last(),
                ));
            },
            None => {
                assert(plan_views(names, l, dir) == prefix + Seq::empty());
                assert(!pred(names.last()));
                assert(names.filter(pred) == names.drop_last().filter(pred));
                assert(plan_names(prefix + Seq::empty()) =~= names.drop_last().filter(pred));
            },
        }
    }
}

proof fn lemma_filter_subset(s: Seq<Seq<char>>, pred: spec_fn(Seq<char>) -> bool, x: Seq<char>)
    requires
        s.filter(pred).contains(x),
    ensures
        s.contains(x),
    decreases s.len(),
{
    reveal(Seq::filter);
    if s.len() != 0 {
        if pred(s.last()) && x == s.last() {
            assert(s[s.len() - 1] == x);
        } else {
            if pred(s.last()) {
                let f = s.drop_last().filter(pred).push(s.last());
                let i = choose|i: int| 0 <= i < f.len() && f[i] == x;
                assert(s.drop_last().filter(pred)[i] == x);
            }
            lemma_filter_subset(s.drop_last(), pred, x);
            let j = choose|j: int| 0 <= j < s.drop_last().len() && s.drop_last()[j] == x;
            assert(s[j] == x);
        }
    }
}

/// A normalized request dumps each partition exactly once: however many
/// duplicates the raw request held, the plan's names are
/// duplicate-free.
pub proof fn lemma_plan_no_duplicates(
    names: Seq<Seq<char>>,
    l: Seq<(Option<Seq<char>>, Option<u64>, Option<Seq<char>>)>,
    dir: Seq<char>,
)
    requires
        names_normal(names),
    ensures
        plan_names(plan_views(names, l, dir)).no_duplicates(),
    decreases names.len(),
{
    reveal(Seq::filter);
    let pred = listed_pred(l);
    lemma_plan_follows_request(names, l, dir);
    if names.len() != 0 {
        assert(names_normal(names.drop_last())) by {
            assert(forall|i: int, j: int|
                0 <= i < j < names.drop_last().len() ==> names.drop_last()[i] == names[i]
                    && names.drop_last()[j] == names[j]);
        }
        lemma_plan_no_duplicates(names.drop_last(), l, dir);
        lemma_plan_follows_request(names.drop_last(), l, dir);
        let fprev = names.drop_last().filter(pred);
        if pred(names.last()) {
            assert(names.filter(pred) == fprev.push(names.last()));
            assert(!fprev.contains(names.last())) by {
                if fprev.contains(names.last()) {
                    lemma_filter_subset(names.drop_last(), pred, names.last());
                    let j = choose|j: int|
                        0 <= j < names.drop_last().len() && names.drop_last()[j] == names.last();
                    assert(names[j] == names[names.len() - 1]);
                    assert(false);
                }
            }
            let f = fprev.push(names.last());
            assert forall|i: int, j: int| 0 <= i < j < f.len() implies f[i] != f[j] by {
                if j < f.len() - 1 {
                    assert(fprev[i] == f[i] && fprev[j] == f[j]);
                } else {
                    assert(f[j] == names.last());
                    assert(fprev[i] == f[i]);
                    assert(fprev.contains(f[i]));
                }
            }
        } else {
            assert(names.filter(pred) == fprev);
        }
    }
}

/// A requested name the listing lacks is excluded silently: no entry of
/// the plan bears it, and planning still succeeds.
pub proof fn lemma_absent_name_excluded(
    names: Seq<Seq<char>>,
    l: Seq<(Option<Seq<char>>, Option<u64>, Option<Seq<char>>)>,
    dir: Seq<char>,
    n: Seq<char>,
)
    requires
        lookup_listed(l, n) is None,
    ensures
        !plan_names(plan_views(names, l, dir)).contains(n),
{
    lemma_plan_follows_request(names, l, dir);
    let pred = listed_pred(l);
    if plan_names(plan_views(names, l, dir)).contains(n) {
        let f = names.filter(pred);
        let i = choose|i: int| 0 <= i < f.len() && f[i] == n;
        broadcast use vstd::seq_lib::group_filter_ensures;

        assert(pred(f[i]));
    }
}

/// Why a dump fails.
#[derive(Debug)]
pub enum DumpError {
    /// The remote listing could not be read; carries the cause.
    ListError(String),
    /// One extraction failed, with its message.
    ExtractError(String),
    /// One extraction worker delivered no outcome at all; carries what
    /// the handoff reported.
    ConcurrencyBridgeError(String),
}

impl DumpError {
    /// The cause each failure carries.
    pub open spec fn spec_message(self) -> Seq<char> {
        match self {
            DumpError::ListError(m) => m@,
            DumpError::ExtractError(m) => m@,
            DumpError::ConcurrencyBridgeError(m) => m@,
        }
    }

    /// The message shown for this failure.
    pub fn message(self) -> (r: String)
        ensures
            r@ == self.spec_message(),
    {
        match self {
            DumpError::ListError(m) => m,
            DumpError::ExtractError(m) => m,
            DumpError::ConcurrencyBridgeError(m) => m,
        }
    }
}

/// Reads the collaborator's listing JSON, or reports that it cannot be
/// read, carrying the parser's own account of why.
pub fn read_listing(json: &str) -> (r: Result<Vec<ListedPartition>, DumpError>)
    ensures
        match r {
            Ok(v) => partition_listing_of(json@) == Some(listed_views(v@)),
            Err(e) => partition_listing_of(json@) is None && e is ListError,
        },
{
    match parse_partition_listing(json) {
        Ok(v) => Ok(v),
        Err(m) => Err(DumpError::ListError(m)),
    }
}

/// The working directory of one dump, keyed by the moment it started:
/// `tmp/<seconds since the epoch>`.  Two dumps started in the same
/// second would collide; nothing here detects that.
pub fn temp_dir_path(ts: u64) -> (r: String)
    ensures
        r@ == "tmp/"@ + crate::utils::dec_rep(ts as nat),
{
    let mut s = String::from_str("tmp/");
    crate::utils::push_u64_dec(&mut s, ts);
    s
}

/// What one extraction worker reported back.
#[derive(Debug)]
pub enum ExtractOutcome {
    /// The partition was written.
    Done,
    /// The extraction failed, with its message.
    Failed(String),
    /// The worker's result never arrived; carries what the handoff
    /// reported.
    Lost(String),
}

/// The position of the first outcome that is not `Done`, at or after `k`.
pub open spec fn first_failure_from(s: Seq<ExtractOutcome>, k: int) -> Option<int>
    decreases s.len() - k when 0 <= k <= s.len()
{
    if k >= s.len() {
        None
    } else if !(s[k] is Done) {
        Some(k)
    } else {
        first_failure_from(s, k + 1)
    }
}

/// The outcomes are inspected in request order, and the first one that
/// is not a success decides the error: a later failure never overtakes
/// an earlier one, however the workers finished on the clock.
pub fn collect_extractions(results: Vec<ExtractOutcome>) -> (r: Result<(), DumpError>)
    ensures
        match r {
            Ok(_) => first_failure_from(results@, 0) is None,
            Err(e) => first_failure_from(results@, 0) matches Some(k) && match results@[k] {
                ExtractOutcome::Done => false,
                ExtractOutcome::Failed(m) => e == DumpError::ExtractError(m),
                ExtractOutcome::Lost(m) => e == DumpError::ConcurrencyBridgeError(m),
            },
        },
{
    let mut k: usize = 0;
    while k < results.len()
        invariant
            k <= results@.len(),
            first_failure_from(results@, 0) == first_failure_from(results@, k as int),
        decreases results@.len() - k,
    {
        match &results[k] {
            ExtractOutcome::Done => {},
            ExtractOutcome::Failed(m) => {
                return Err(DumpError::ExtractError(m.clone()));
            },
            ExtractOutcome::Lost(m) => {
                return Err(DumpError::ConcurrencyBridgeError(m.clone()));
            },
        }
        k += 1;
    }
    Ok(())
}

} // verus!
