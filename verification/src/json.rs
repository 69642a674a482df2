use vstd::prelude::*;

verus! {

/// A JSON document as this library holds it: numbers and texts keep their
/// source text, objects keep their entries in insertion order.
#[derive(Debug, PartialEq, Eq)]
pub enum Json {
    Null,
    Bool(bool),
    Number(String),
    Text(String),
    Array(Vec<Json>),
    Object(Vec<(String, Json)>),
}

/// The mathematical model of a document: objects become maps from key to
/// value, texts become sequences of characters, entry order falls away.
pub enum JVal {
    Null,
    Bool(bool),
    Num(Seq<char>),
    Str(Seq<char>),
    Arr(Seq<JVal>),
    Obj(Map<Seq<char>, JVal>),
}

pub open spec fn json_model(j: Json) -> JVal
    decreases j, 0int,
{
    match j {
        Json::Null => JVal::Null,
        Json::Bool(b) => JVal::Bool(b),
        Json::Number(s) => JVal::Num(s@),
        Json::Text(s) => JVal::Str(s@),
        Json::Array(v) => JVal::Arr(items_model(v@)),
        Json::Object(v) => JVal::Obj(entries_model(v@)),
    }
}

pub open spec fn items_model(s: Seq<Json>) -> Seq<JVal>
    decreases s, s.len(),
{
    if s.len() == 0 {
        Seq::empty()
    } else {
        items_model(s.drop_last()).push(json_model(s.last()))
    }
}

pub open spec fn entries_model(s: Seq<(String, Json)>) -> Map<Seq<char>, JVal>
    decreases s, s.len(),
{
    if s.len() == 0 {
        Map::empty()
    } else {
        entries_model(s.drop_last()).insert(s.last().0@, json_model(s.last().1))
    }
}

impl View for Json {
    type V = JVal;

    open spec fn view(&self) -> JVal {
        json_model(*self)
    }
}

/// Deep merge of two documents: where both sides are objects their keys are
/// unioned and shared keys merged recursively; everywhere else the later
/// (right) document wins.
pub open spec fn merged(a: JVal, b: JVal) -> JVal
    decreases b,
{
    match (a, b) {
        (JVal::Obj(ma), JVal::Obj(mb)) => {
            if mb.dom().finite() {
                JVal::Obj(
                    Map::new(
                        |k: Seq<char>| ma.contains_key(k) || mb.contains_key(k),
                        |k: Seq<char>|
                            if mb.contains_key(k) {
                                if ma.contains_key(k) {
                                    merged(ma[k], mb[k])
                                } else {
                                    mb[k]
                                }
                            } else {
                                ma[k]
                            },
                    ),
                )
            } else {
                b
            }
        },
        (_, other) => other,
    }
}

/// No two entries of an object share a key.
pub open spec fn unique_keys(s: Seq<(String, Json)>) -> bool {
    forall|i: int, j: int| 0 <= i < j < s.len() ==> s[i].0@ != s[j].0@
}

/// Well-formed documents: every object, at every depth, has unique keys.
pub open spec fn json_wf(j: Json) -> bool
    decreases j,
{
    match j {
        Json::Array(v) => forall|i: int| 0 <= i < v@.len() ==> json_wf(#[trigger] v@[i]),
        Json::Object(v) => unique_keys(v@) && forall|i: int|
            0 <= i < v@.len() ==> json_wf(#[trigger] v@[i].1),
        _ => true,
    }
}

/// Some entry of `s` carries the key `k`.
pub open spec fn has_key(s: Seq<(String, Json)>, k: Seq<char>) -> bool {
    exists|i: int| 0 <= i < s.len() && s[i].0@ == k
}

/// The model of an entry list is a finite map whose keys are the entry keys.
pub proof fn lemma_entries_model_dom(s: Seq<(String, Json)>)
    ensures
        entries_model(s).dom().finite(),
        forall|k: Seq<char>| entries_model(s).contains_key(k) <==> has_key(s, k),
    decreases s.len(),
{
    if s.len() == 0 {
    } else {
        lemma_entries_model_dom(s.drop_last());
        assert forall|k: Seq<char>| entries_model(s).contains_key(k) <==> has_key(s, k) by {
            if entries_model(s).contains_key(k) {
                if k == s.last().0@ {
                    assert(s[s.len() - 1].0@ == k);
                } else {
                    assert(entries_model(s.drop_last()).contains_key(k));
                    assert(has_key(s.drop_last(), k));
                    let i = choose|i: int| 0 <= i < s.drop_last().len() && s.drop_last()[i].0@ == k;
                    assert(s.drop_last()[i] == s[i]);
                    assert(s[i].0@ == k);
                }
            }
            if has_key(s, k) {
                let i = choose|i: int| 0 <= i < s.len() && s[i].0@ == k;
                if i < s.len() - 1 {
                    assert(s.drop_last()[i] == s[i]);
                    assert(has_key(s.drop_last(), k));
                    assert(entries_model(s.drop_last()).contains_key(k));
                } else {
                    assert(s.last() == s[i]);
                    assert(k == s.last().0@);
                }
                assert(entries_model(s).contains_key(k));
            }
        }
    }
}

/// Under unique keys, the model maps each entry's key to that entry's value.
pub proof fn lemma_entries_model_at(s: Seq<(String, Json)>, i: int)
    requires
        unique_keys(s),
        0 <= i < s.len(),
    ensures
        entries_model(s).contains_key(s[i].0@),
        entries_model(s)[s[i].0@] == json_model(s[i].1),
    decreases s.len(),
{
    lemma_entries_model_dom(s);
    if i == s.len() - 1 {
    } else {
        assert(unique_keys(s.drop_last())) by {
            assert(forall|a: int, b: int|
                0 <= a < b < s.drop_last().len() ==> s.drop_last()[a] == s[a] && s.drop_last()[b]
                    == s[b]);
        }
        lemma_entries_model_at(s.drop_last(), i);
        assert(s.drop_last()[i] == s[i]);
        assert(s[i].0@ != s.last().0@) by {
            assert(s.last() == s[s.len() - 1]);
        }
    }
}

/// Under unique keys, an object has exactly as many model keys as entries.
pub proof fn lemma_entries_model_len(s: Seq<(String, Json)>)
    requires
        unique_keys(s),
    ensures
        entries_model(s).dom().len() == s.len(),
    decreases s.len(),
{
    lemma_entries_model_dom(s);
    if s.len() > 0 {
        assert(unique_keys(s.drop_last())) by {
            assert(forall|a: int, b: int|
                0 <= a < b < s.drop_last().len() ==> s.drop_last()[a] == s[a] && s.drop_last()[b]
                    == s[b]);
        }
        lemma_entries_model_len(s.drop_last());
        lemma_entries_model_dom(s.drop_last());
        assert(!has_key(s.drop_last(), s.last().0@)) by {
            assert forall|w: int| 0 <= w < s.drop_last().len() implies s.drop_last()[w].0@
                != s.last().0@ by {
                assert(s.drop_last()[w] == s[w]);
                assert(s.last() == s[s.len() - 1]);
            }
        }
        assert(entries_model(s).dom() =~= entries_model(s.drop_last()).dom().insert(s.last().0@));
        vstd::set::axiom_set_insert_len(entries_model(s.drop_last()).dom(), s.last().0@);
    }
}

/// The object case of `merged`, on the two key maps.
pub open spec fn mmerge(ma: Map<Seq<char>, JVal>, mb: Map<Seq<char>, JVal>) -> Map<
    Seq<char>,
    JVal,
> {
    Map::new(
        |k: Seq<char>| ma.contains_key(k) || mb.contains_key(k),
        |k: Seq<char>|
            if mb.contains_key(k) {
                if ma.contains_key(k) {
                    merged(ma[k], mb[k])
                } else {
                    mb[k]
                }
            } else {
                ma[k]
            },
    )
}

pub proof fn lemma_merged_obj(ma: Map<Seq<char>, JVal>, mb: Map<Seq<char>, JVal>)
    requires
        mb.dom().finite(),
    ensures
        merged(JVal::Obj(ma), JVal::Obj(mb)) == JVal::Obj(mmerge(ma, mb)),
{
    let inner = merged(JVal::Obj(ma), JVal::Obj(mb))->Obj_0;
    assert(inner =~= mmerge(ma, mb));
}

/// Inserting a fresh key on the right of a merge inserts the merged value.
pub proof fn lemma_mmerge_insert(
    ma: Map<Seq<char>, JVal>,
    m: Map<Seq<char>, JVal>,
    k: Seq<char>,
    v: JVal,
)
    requires
        !m.contains_key(k),
    ensures
        mmerge(ma, m.insert(k, v)) == mmerge(ma, m).insert(
            k,
            if ma.contains_key(k) {
                merged(ma[k], v)
            } else {
                v
            },
        ),
{
    let lhs = mmerge(ma, m.insert(k, v));
    let rhs = mmerge(ma, m).insert(
        k,
        if ma.contains_key(k) {
            merged(ma[k], v)
        } else {
            v
        },
    );
    assert(lhs =~= rhs);
}

/// Replacing the entry that carries key `p.0@` by `p` (moved to the end, as
/// `swap_remove` then `push` leave the list) updates the model at that key.
pub proof fn lemma_entries_replace(s: Seq<(String, Json)>, idx: int, p: (String, Json))
    requires
        unique_keys(s),
        0 <= idx < s.len(),
        p.0@ == s[idx].0@,
    ensures
        ({
            let t = s.update(idx, s.last()).drop_last().push(p);
            &&& unique_keys(t)
            &&& entries_model(t) == entries_model(s).insert(p.0@, json_model(p.1))
            &&& forall|u: int|
                0 <= u < t.len() ==> t[u] == p || exists|w: int|
                    0 <= w < s.len() && t[u] == #[trigger] s[w]
        }),
{
    let t = s.update(idx, s.last()).drop_last().push(p);
    let n = s.len() as int;
    assert(t.len() == n);
    assert forall|u: int| 0 <= u < t.len() implies t[u] == p || exists|w: int|
        0 <= w < s.len() && t[u] == #[trigger] s[w] by {
        if u == n - 1 {
            assert(t[u] == p);
        } else if u == idx {
            assert(t[u] == s[n - 1]);
        } else {
            assert(t[u] == s[u]);
        }
    }
    assert forall|a: int, b: int| 0 <= a < b < t.len() implies t[a].0@ != t[b].0@ by {
        let sa = if a == idx && idx < n - 1 {
            n - 1
        } else {
            a
        };
        let sb = if b == n - 1 {
            idx
        } else if b == idx {
            n - 1
        } else {
            b
        };
        assert(t[a].0@ == s[sa].0@);
        assert(t[b].0@ == s[sb].0@);
        assert(sa != sb);
    }
    lemma_entries_model_dom(s);
    lemma_entries_model_dom(t);
    let lhs = entries_model(t);
    let rhs = entries_model(s).insert(p.0@, json_model(p.1));
    assert forall|k: Seq<char>| lhs.contains_key(k) <==> rhs.contains_key(k) by {
        if lhs.contains_key(k) {
            assert(has_key(t, k));
            let u = choose|u: int| 0 <= u < t.len() && t[u].0@ == k;
            if u == n - 1 {
                assert(t[u] == p);
                assert(rhs.contains_key(k));
            } else if u == idx {
                assert(t[u] == s[n - 1]);
                assert(s[n - 1].0@ == k);
                assert(has_key(s, k));
            } else {
                assert(t[u] == s[u]);
                assert(s[u].0@ == k);
                assert(has_key(s, k));
            }
        }
        if rhs.contains_key(k) {
            if k == p.0@ {
                assert(t[n - 1] == p);
                assert(t[n - 1].0@ == k);
            } else {
                assert(entries_model(s).contains_key(k));
                assert(has_key(s, k));
                let w = choose|w: int| 0 <= w < s.len() && s[w].0@ == k;
                assert(w != idx);
                if w == n - 1 {
                    assert(t[idx] == s[n - 1]);
                    assert(t[idx].0@ == k);
                } else {
                    assert(t[w] == s[w]);
                    assert(t[w].0@ == k);
                }
            }
            assert(has_key(t, k));
        }
    }
    assert forall|k: Seq<char>| lhs.contains_key(k) implies lhs[k] == rhs[k] by {
        if k == p.0@ {
            assert(t[n - 1] == p);
            lemma_entries_model_at(t, n - 1);
        } else {
            assert(has_key(t, k));
            let u = choose|u: int| 0 <= u < t.len() && t[u].0@ == k;
            assert(t[n - 1] == p);
            assert(u != n - 1);
            lemma_entries_model_at(t, u);
            if u == idx {
                lemma_entries_model_at(s, n - 1);
                assert(t[u] == s[n - 1]);
            } else {
                lemma_entries_model_at(s, u);
                assert(t[u] == s[u]);
            }
        }
    }
    assert(lhs =~= rhs);
}

/// Index of the entry that carries `key`, if one does.
pub(crate) fn find_key(entries: &Vec<(String, Json)>, key: &String) -> (r: Option<usize>)
    ensures
        match r {
            Some(i) => i < entries@.len() && entries@[i as int].0@ == key@,
            None => !has_key(entries@, key@),
        },
{
    let mut i: usize = 0;
    while i < entries.len()
        invariant
            i <= entries@.len(),
            forall|j: int| 0 <= j < i ==> entries@[j].0@ != key@,
        decreases entries@.len() - i,
    {
        if entries[i].0 == *key {
            return Some(i);
        }
        i += 1;
    }
    None
}

/// Deep merge, the executable side of `merged`: where both documents are
/// objects their entries are united key-wise and recursively, everywhere
/// else the later document replaces the earlier one.
#[verifier::loop_isolation(false)]
pub fn merge(a: Json, b: Json) -> (r: Json)
    requires
        json_wf(a),
        json_wf(b),
    ensures
        json_wf(r),
        r@ == merged(a@, b@),
    decreases b,
{
    let ghost ga = a@;
    let ghost gb = b@;
    let ghost b0 = b;
    match (a, b) {
        (Json::Object(av), Json::Object(bv)) => {
            let mut cur = av;
            let mut rest = bv;
            let ghost bvec0 = rest;
            let ghost ma0 = entries_model(cur@);
            let ghost bseq = rest@;
            let ghost mut done: Seq<(String, Json)> = Seq::empty();
            proof {
                assert(bseq =~= done + rest@);
                assert(entries_model(cur@) =~= mmerge(ma0, entries_model(done)));
                assert(decreases_to!(b0 => bvec0));
                assert(decreases_to!(bvec0 => bseq));
                assert(decreases_to!(b0 => bseq));
            }
            while rest.len() > 0
                invariant
                    unique_keys(cur@),
                    forall|t: int| 0 <= t < cur@.len() ==> json_wf(#[trigger] cur@[t].1),
                    unique_keys(bseq),
                    forall|t: int| 0 <= t < bseq.len() ==> json_wf(#[trigger] bseq[t].1),
                    bseq == done + rest@,
                    entries_model(cur@) == mmerge(ma0, entries_model(done)),
                    decreases_to!(b0 => bseq),
                decreases rest@.len(),
            {
                let ghost done0 = done;
                let ghost cur0 = cur@;
                let pair = rest.remove(0);
                let ghost e = pair;
                proof {
                    assert(e == bseq[done0.len() as int]);
                    assert(done0.push(e) + rest@ =~= bseq);
                }
                let (k, v) = pair;
                let ghost gv = json_model(e.1);
                proof {
                    assert(json_wf(e.1));
                    lemma_entries_model_dom(done0);
                    assert(!has_key(done0, e.0@)) by {
                        assert forall|w: int| 0 <= w < done0.len() implies done0[w].0@ != e.0@ by {
                            assert(done0[w] == bseq[w]);
                        }
                    }
                    lemma_mmerge_insert(
                        ma0,
                        entries_model(done0),
                        e.0@,
                        gv,
                    );
                }
                let found = find_key(&cur, &k);
                match found {
                    Some(idx) => {
                        proof {
                            lemma_entries_model_dom(cur0);
                            lemma_entries_model_at(cur0, idx as int);
                            assert(ma0.contains_key(e.0@)) by {
                                assert(entries_model(cur0).contains_key(e.0@));
                            }
                        }
                        let (ek, ev) = cur.swap_remove(idx);
                        proof {
                            assert(v == e.1);
                            assert(decreases_to!(bseq => e.1)) by {
                                assert(decreases_to!(bseq => bseq[done0.len() as int]));
                            }
                            assert(decreases_to!(b0 => e.1));
                        }
                        let nv = merge(ev, v);
                        cur.push((ek, nv));
                        proof {
                            let p = (ek, nv);
                            assert(p.0@ == cur0[idx as int].0@);
                            lemma_entries_replace(cur0, idx as int, p);
                            assert(cur@ =~= cur0.update(idx as int, cur0.last()).drop_last().push(
                                p,
                            ));
                            assert(entries_model(cur0)[e.0@] == json_model(cur0[idx as int].1));
                            assert forall|t: int| 0 <= t < cur@.len() implies json_wf(
                                #[trigger] cur@[t].1,
                            ) by {
                                if cur@[t] != p {
                                    let w = choose|w: int|
                                        0 <= w < cur0.len() && cur@[t] == #[trigger] cur0[w];
                                    assert(json_wf(cur0[w].1));
                                }
                            }
                        }
                    },
                    None => {
                        proof {
                            lemma_entries_model_dom(cur0);
                            assert(!entries_model(cur0).contains_key(e.0@));
                            assert(!ma0.contains_key(e.0@));
                        }
                        cur.push((k, v));
                        proof {
                            assert(cur@ =~= cur0.push(e));
                            assert(cur@.drop_last() =~= cur0);
                            assert forall|x: int, y: int|
                                0 <= x < y < cur@.len() implies cur@[x].0@ != cur@[y].0@ by {
                                if y == cur@.len() - 1 {
                                    assert(cur@[x] == cur0[x]);
                                    assert(has_key(cur0, cur@[x].0@) ==> entries_model(
                                        cur0,
                                    ).contains_key(cur@[x].0@));
                                }
                            }
                        }
                    },
                }
                proof {
                    done = done0.push(e);
                    assert(done.drop_last() =~= done0);
                    assert(entries_model(done) == entries_model(done0).insert(e.0@, gv));
                    assert(bseq =~= done + rest@);
                }
            }
            proof {
                assert(done =~= bseq);
                assert(ga == JVal::Obj(ma0));
                assert(gb == JVal::Obj(entries_model(bseq)));
                lemma_entries_model_dom(bseq);
                lemma_merged_obj(ma0, entries_model(bseq));
            }
            Json::Object(cur)
        },
        (_, other) => other,
    }
}

/// Law: merging two objects unites their keys; which keys come out does not
/// depend on the order of the two documents, only which values win does.
pub proof fn lemma_merge_keys(a: JVal, b: JVal)
    requires
        a is Obj,
        b is Obj,
        a->Obj_0.dom().finite(),
        b->Obj_0.dom().finite(),
    ensures
        merged(a, b) is Obj,
        merged(a, b)->Obj_0.dom() == a->Obj_0.dom().union(b->Obj_0.dom()),
        merged(a, b)->Obj_0.dom().finite(),
{
    let ma = a->Obj_0;
    let mb = b->Obj_0;
    lemma_merged_obj(ma, mb);
    assert(mmerge(ma, mb).dom() =~= ma.dom().union(mb.dom()));
    vstd::set_lib::lemma_set_union_finite_iff(ma.dom(), mb.dom());
}

/// Law: whatever the order in which three object documents are aggregated,
/// the merged object holds the union of their keys; as the union is
/// symmetric, every aggregation order yields the same key set, and only
/// conflicting values depend on the order.
pub proof fn lemma_merge_keys_any_order(a: JVal, b: JVal, c: JVal)
    requires
        a is Obj,
        b is Obj,
        c is Obj,
        a->Obj_0.dom().finite(),
        b->Obj_0.dom().finite(),
        c->Obj_0.dom().finite(),
    ensures
        merged(merged(a, b), c) is Obj,
        merged(merged(a, b), c)->Obj_0.dom() == a->Obj_0.dom().union(b->Obj_0.dom()).union(
            c->Obj_0.dom(),
        ),
{
    lemma_merge_keys(a, b);
    lemma_merge_keys(merged(a, b), c);
}

/// Two documents have no kind conflict: wherever their objects share a key,
/// the two values under it are again of one kind, objects with objects and
/// leaves with leaves, at every depth.
pub open spec fn compatible(a: JVal, b: JVal) -> bool
    decreases a,
{
    match (a, b) {
        (JVal::Obj(ma), JVal::Obj(mb)) => ma.dom().finite() && mb.dom().finite() && forall|
            k: Seq<char>,
        |
            ma.contains_key(k) && mb.contains_key(k) ==> compatible(#[trigger] ma[k], mb[k]),
        (JVal::Obj(_), _) => false,
        (_, JVal::Obj(_)) => false,
        _ => true,
    }
}

/// Law: on pairwise compatible documents, aggregation is associative. A
/// kind conflict breaks it: with a = {"k": {"x": 0}}, b = {"k": 0} and
/// c = {"k": {"y": 0}}, merging a, b first ends with {"k": {"y": 0}} while
/// merging b, c first ends with {"k": 0} under a's key united in.
pub proof fn lemma_merge_associative(a: JVal, b: JVal, c: JVal)
    requires
        compatible(a, b),
        compatible(b, c),
        compatible(a, c),
    ensures
        merged(merged(a, b), c) == merged(a, merged(b, c)),
    decreases a,
{
    match (a, b, c) {
        (JVal::Obj(ma), JVal::Obj(mb), JVal::Obj(mc)) => {
            lemma_merged_obj(ma, mb);
            lemma_merged_obj(mb, mc);
            let mab = mmerge(ma, mb);
            let mbc = mmerge(mb, mc);
            assert(mbc.dom() =~= mb.dom().union(mc.dom()));
            vstd::set_lib::lemma_set_union_finite_iff(mb.dom(), mc.dom());
            lemma_merged_obj(mab, mc);
            lemma_merged_obj(ma, mbc);
            assert forall|k: Seq<char>|
                mab.contains_key(k) || mc.contains_key(k) implies #[trigger] mmerge(mab, mc)[k]
                == mmerge(ma, mbc)[k] by {
                if ma.contains_key(k) && mb.contains_key(k) && mc.contains_key(k) {
                    lemma_merge_associative(ma[k], mb[k], mc[k]);
                }
            }
            assert(mmerge(mab, mc) =~= mmerge(ma, mbc));
        },
        _ => {
            assert(!(a is Obj) && !(b is Obj) && !(c is Obj));
        },
    }
}

#[verifier::external_type_specification]
#[verifier::external_body]
pub struct ExValue(serde_json::Value);

/// What a `serde_json::Value` holds, as this library's model.
pub uninterp spec fn value_model(v: serde_json::Value) -> JVal;

/// What parsing a text as one JSON document yields, if anything; parsing is
/// a function of the text alone.
pub uninterp spec fn json_doc(s: Seq<char>) -> Option<JVal>;

/// Relies on serde_json::from_str: a text parses to at most one document,
/// determined by the text alone.
#[verifier::external_body]
fn parse_value(s: &str) -> (r: Result<serde_json::Value, String>)
    ensures
        r matches Ok(v) ==> json_doc(s@) == Some(value_model(v)),
        r is Ok <==> json_doc(s@) is Some,
{
    match serde_json::from_str::<serde_json::Value>(s) {
        Ok(v) => Ok(v),
        Err(e) => Err(format!("{e}")),
    }
}

/// Relies on serde_json::Value's accessors: rebuilds the parsed document with
/// this crate's own constructors, variant by variant, keys and texts kept as
/// they are; serde_json's object maps hold each key once, so the result is
/// well formed.
#[verifier::external_body]
fn from_value(v: &serde_json::Value) -> (r: Json)
    ensures
        r@ == value_model(*v),
        json_wf(r),
{
    match v {
        serde_json::Value::Null => Json::Null,
        serde_json::Value::Bool(b) => Json::Bool(*b),
        serde_json::Value::Number(n) => Json::Number(n.to_string()),
        serde_json::Value::String(s) => Json::Text(s.clone()),
        serde_json::Value::Array(a) => Json::Array(a.iter().map(from_value).collect()),
        serde_json::Value::Object(m) => Json::Object(
            m.iter().map(|(k, x)| (k.clone(), from_value(x))).collect(),
        ),
    }
}

/// Parse one text as a JSON document, or hand back the parser's complaint.
pub fn parse_json(s: &str) -> (r: Result<Json, String>)
    ensures
        r matches Ok(j) ==> json_doc(s@) == Some(j@) && json_wf(j),
        r is Ok <==> json_doc(s@) is Some,
{
    match parse_value(s) {
        Ok(v) => Ok(from_value(&v)),
        Err(e) => Err(e),
    }
}

} // verus!
