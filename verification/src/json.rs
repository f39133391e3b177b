use vstd::prelude::*;

verus! {

/// A JSON value, used as the rendering context handed to templates.
///
/// Numbers keep the literal they were written with, so no precision is lost
/// and no value needs floating point.
pub enum Json {
    Null,
    Bool(bool),
    Num(String),
    Str(String),
    Arr(Vec<Json>),
    Obj(Vec<(String, Json)>),
}

/// The abstract value of a `Json` tree.
#[verifier::ext_equal]
pub enum JsonV {
    Null,
    Bool(bool),
    Num(Seq<char>),
    Str(Seq<char>),
    Arr(Seq<JsonV>),
    Obj(Seq<(Seq<char>, JsonV)>),
}

/// The abstract value of a JSON tree; recursion stops at the leaves.
pub open spec fn json_view(j: Json) -> JsonV
    decreases j,
{
    match j {
        Json::Null => JsonV::Null,
        Json::Bool(b) => JsonV::Bool(b),
        Json::Num(s) => JsonV::Num(s@),
        Json::Str(s) => JsonV::Str(s@),
        Json::Arr(items) => JsonV::Arr(
            Seq::new(
                items@.len(),
                |i: int|
                    if 0 <= i < items@.len() {
                        json_view(items@[i])
                    } else {
                        arbitrary()
                    },
            ),
        ),
        Json::Obj(entries) => JsonV::Obj(
            Seq::new(
                entries@.len(),
                |i: int|
                    if 0 <= i < entries@.len() {
                        (entries@[i].0@, json_view(entries@[i].1))
                    } else {
                        arbitrary()
                    },
            ),
        ),
    }
}

impl View for Json {
    type V = JsonV;

    open spec fn view(&self) -> JsonV {
        json_view(*self)
    }
}

impl Json {
    /// A deep copy of the value.
    pub fn duplicate(&self) -> (r: Json)
        ensures
            r@ == self@,
        decreases self,
    {
        match self {
            Json::Null => Json::Null,
            Json::Bool(b) => Json::Bool(*b),
            Json::Num(s) => Json::Num(crate::strutil::string_clone(s)),
            Json::Str(s) => Json::Str(crate::strutil::string_clone(s)),
            Json::Arr(items) => {
                let n = items.len();
                let mut out: Vec<Json> = Vec::new();
                let mut i: usize = 0;
                while i < n
                    invariant
                        self is Arr,
                        self->Arr_0 == *items,
                        i <= n,
                        n == items@.len(),
                        out@.len() == i,
                        forall|j: int| 0 <= j < i ==> json_view(#[trigger] out@[j]) == json_view(
                            items@[j],
                        ),
                    decreases n - i,
                {
                    proof {
                        assert(decreases_to!(*self => self->Arr_0));
                        assert(self->Arr_0 == *items);
                        assert(decreases_to!(*items => items@));
                        assert(decreases_to!(items@ => items@[i as int]));
                    }
                    let c = items[i].duplicate();
                    out.push(c);
                    i = i + 1;
                }
                let r = Json::Arr(out);
                proof {
                    let rv = json_view(r);
                    let sv = json_view(*self);
                    assert(rv matches JsonV::Arr(a) && sv matches JsonV::Arr(b) && a =~= b);
                }
                r
            },
            Json::Obj(entries) => {
                let n = entries.len();
                let mut out: Vec<(String, Json)> = Vec::new();
                let mut i: usize = 0;
                while i < n
                    invariant
                        self is Obj,
                        self->Obj_0 == *entries,
                        i <= n,
                        n == entries@.len(),
                        out@.len() == i,
                        forall|j: int| 0 <= j < i ==> (#[trigger] out@[j]).0@ == entries@[j].0@
                            && json_view(out@[j].1) == json_view(entries@[j].1),
                    decreases n - i,
                {
                    proof {
                        assert(decreases_to!(*self => self->Obj_0));
                        assert(self->Obj_0 == *entries);
                        assert(decreases_to!(*entries => entries@));
                        assert(decreases_to!(entries@ => entries@[i as int]));
                        assert(decreases_to!(entries@[i as int] => entries@[i as int].1));
                    }
                    let k = crate::strutil::string_clone(&entries[i].0);
                    let v = entries[i].1.duplicate();
                    out.push((k, v));
                    i = i + 1;
                }
                let r = Json::Obj(out);
                proof {
                    let rv = json_view(r);
                    let sv = json_view(*self);
                    assert(rv matches JsonV::Obj(a) && sv matches JsonV::Obj(b) && a =~= b);
                }
                r
            },
        }
    }
}

#[verifier::external_type_specification]
#[verifier::external_body]
pub struct ExSerdeJsonValue(serde_json::Value);

/// Whether a string is valid JSON; the value it denotes, or the diagnostic
/// for rejecting it. Both are functions of the string alone.
pub uninterp spec fn json_parsed(s: Seq<char>) -> Result<JsonV, Seq<char>>;

/// Parses a string as JSON.
/// Relies on `serde_json::from_str`: it accepts exactly the valid JSON
/// documents, and both the value it reads and the message it rejects with
/// depend on the text alone.
#[verifier::external_body]
pub fn parse_json(s: &str) -> (r: Result<Json, String>)
    ensures
        match r {
            Ok(j) => json_parsed(s@) == Ok::<JsonV, Seq<char>>(j@),
            Err(e) => json_parsed(s@) == Err::<JsonV, Seq<char>>(e@),
        },
{
    match serde_json::from_str::<serde_json::Value>(s) {
        Ok(v) => Ok(json_of_value(&v)),
        Err(e) => Err(e.to_string()),
    }
}

/// The entries of a JSON object; any other value has none.
pub open spec fn jentries_of(j: JsonV) -> Seq<(Seq<char>, JsonV)> {
    match j {
        JsonV::Obj(e) => e,
        _ => Seq::empty(),
    }
}

/// The entries with every binding of `k` removed.
pub open spec fn jentries_drop_key(
    e: Seq<(Seq<char>, JsonV)>,
    k: Seq<char>,
) -> Seq<(Seq<char>, JsonV)>
    decreases e.len(),
{
    if e.len() == 0 {
        Seq::empty()
    } else if e[0].0 == k {
        jentries_drop_key(e.drop_first(), k)
    } else {
        seq![e[0]] + jentries_drop_key(e.drop_first(), k)
    }
}

/// The context after binding `k` to `v`: the new binding shadows any entry
/// `ctx` held for the same key, and every other entry of `ctx` follows it.
pub open spec fn spec_obj_bind(k: Seq<char>, v: JsonV, ctx: JsonV) -> JsonV {
    JsonV::Obj(seq![(k, v)] + jentries_drop_key(jentries_of(ctx), k))
}

/// Binds `k` to `v` in front of the entries of `ctx`.
pub fn obj_bind(k: &str, v: Json, ctx: &Json) -> (r: Json)
    ensures
        r@ == spec_obj_bind(k@, v@, ctx@),
{
    let mut out: Vec<(String, Json)> = Vec::new();
    out.push((String::from_str(k), v));
    let ghost full: Seq<(Seq<char>, JsonV)> = jentries_of(ctx@);
    match ctx {
        Json::Obj(entries) => {
            let n = entries.len();
            let mut i: usize = 0;
            proof {
                assert(full.skip(0) =~= full);
                assert(obj_entries_view(out@) =~= seq![(k@, v@)]);
            }
            while i < n
                invariant
                    ctx is Obj,
                    ctx->Obj_0 == *entries,
                    full == jentries_of(ctx@),
                    i <= n,
                    n == entries@.len(),
                    out@.len() >= 1,
                    out@[0].0@ == k@,
                    out@[0].1@ == v@,
                    seq![(k@, v@)] + jentries_drop_key(full, k@) =~= obj_entries_view(out@)
                        + jentries_drop_key(full.skip(i as int), k@),
                decreases n - i,
            {
                proof {
                    assert(full[i as int] == (entries@[i as int].0@, json_view(
                        entries@[i as int].1,
                    )));
                    assert(full.skip(i as int)[0] == full[i as int]);
                    assert(full.skip(i as int).drop_first() =~= full.skip(i + 1));
                }
                if !crate::strutil::str_eq(entries[i].0.as_str(), k) {
                    let ghost before = out@;
                    let kk = crate::strutil::string_clone(&entries[i].0);
                    let vv = entries[i].1.duplicate();
                    out.push((kk, vv));
                    proof {
                        assert(obj_entries_view(out@) =~= obj_entries_view(before).push(
                            full[i as int],
                        ));
                        assert(obj_entries_view(before).push(full[i as int]) + jentries_drop_key(
                            full.skip(i + 1),
                            k@,
                        ) =~= obj_entries_view(before) + (seq![full[i as int]]
                            + jentries_drop_key(full.skip(i + 1), k@)));
                    }
                }
                i = i + 1;
            }
            proof {
                assert(full.skip(n as int).len() == 0);
                assert(jentries_drop_key(full.skip(n as int), k@)
                    =~= Seq::<(Seq<char>, JsonV)>::empty());
                assert(obj_entries_view(out@) + Seq::<(Seq<char>, JsonV)>::empty()
                    =~= obj_entries_view(out@));
            }
        },
        _ => {
            proof {
                assert(full =~= Seq::<(Seq<char>, JsonV)>::empty());
                assert(obj_entries_view(out@) =~= seq![(k@, v@)]);
                assert(seq![(k@, v@)] + jentries_drop_key(full, k@) =~= obj_entries_view(out@));
            }
        },
    }
    let r = Json::Obj(out);
    proof {
        assert(jentries_of(r@) =~= obj_entries_view(out@));
        assert(jentries_of(r@) =~= seq![(k@, v@)] + jentries_drop_key(full, k@)) by {
            assert(seq![(k@, out@[0].1@)] =~= seq![(k@, v@)]);
        }
    }
    r
}

/// The value the entries bind to `k`, if any; the earliest binding wins.
pub open spec fn jentries_get(e: Seq<(Seq<char>, JsonV)>, k: Seq<char>) -> Option<JsonV>
    decreases e.len(),
{
    if e.len() == 0 {
        None
    } else if e[0].0 == k {
        Some(e[0].1)
    } else {
        jentries_get(e.drop_first(), k)
    }
}

/// The context with `k` bound to `v` after every existing entry; an existing
/// binding of `k` wins, so nothing is added then.
pub open spec fn spec_obj_append_absent(ctx: JsonV, k: Seq<char>, v: JsonV) -> JsonV {
    if jentries_get(jentries_of(ctx), k) is Some {
        JsonV::Obj(jentries_of(ctx))
    } else {
        JsonV::Obj(jentries_of(ctx).push((k, v)))
    }
}

/// Appending one entry changes a lookup only when nothing earlier matched.
proof fn lemma_jentries_get_snoc(e: Seq<(Seq<char>, JsonV)>, x: (Seq<char>, JsonV), k: Seq<char>)
    ensures
        jentries_get(e.push(x), k) == match jentries_get(e, k) {
            Some(v) => Some(v),
            None => if x.0 == k {
                Some(x.1)
            } else {
                None
            },
        },
    decreases e.len(),
{
    if e.len() == 0 {
        assert(e.push(x).drop_first() =~= Seq::<(Seq<char>, JsonV)>::empty());
    } else {
        assert(e.push(x).drop_first() =~= e.drop_first().push(x));
        assert(e.push(x)[0] == e[0]);
        lemma_jentries_get_snoc(e.drop_first(), x, k);
    }
}

/// Binds `k` to `v` after the entries of `ctx`, unless `ctx` already binds
/// `k`.
pub fn obj_append_absent(ctx: &Json, k: &str, v: Json) -> (r: Json)
    ensures
        r@ == spec_obj_append_absent(ctx@, k@, v@),
{
    let ghost full: Seq<(Seq<char>, JsonV)> = jentries_of(ctx@);
    let mut out: Vec<(String, Json)> = Vec::new();
    let mut found = false;
    match ctx {
        Json::Obj(entries) => {
            let n = entries.len();
            let mut i: usize = 0;
            proof {
                assert(full.take(0) =~= Seq::<(Seq<char>, JsonV)>::empty());
                assert(obj_entries_view(out@) =~= full.take(0));
            }
            while i < n
                invariant
                    ctx is Obj,
                    ctx->Obj_0 == *entries,
                    full == jentries_of(ctx@),
                    i <= n,
                    n == entries@.len(),
                    obj_entries_view(out@) =~= full.take(i as int),
                    found == (jentries_get(full.take(i as int), k@) is Some),
                decreases n - i,
            {
                proof {
                    assert(full[i as int] == (entries@[i as int].0@, json_view(
                        entries@[i as int].1,
                    )));
                    assert(full.take(i + 1).drop_last() =~= full.take(i as int));
                    assert(full.take(i + 1).last() == full[i as int]);
                    assert(full.take(i as int).push(full[i as int]) =~= full.take(i + 1));
                    lemma_jentries_get_snoc(full.take(i as int), full[i as int], k@);
                }
                if crate::strutil::str_eq(entries[i].0.as_str(), k) {
                    found = true;
                }
                let ghost before = out@;
                let kk = crate::strutil::string_clone(&entries[i].0);
                let vv = entries[i].1.duplicate();
                out.push((kk, vv));
                proof {
                    assert(obj_entries_view(out@) =~= obj_entries_view(before).push(
                        full[i as int],
                    ));
                }
                i = i + 1;
            }
            proof {
                assert(full.take(n as int) =~= full);
            }
        },
        _ => {
            proof {
                assert(full =~= Seq::<(Seq<char>, JsonV)>::empty());
                assert(obj_entries_view(out@) =~= full);
            }
        },
    }
    if found {
        let r = Json::Obj(out);
        proof {
            assert(jentries_of(r@) =~= obj_entries_view(out@));
            assert(jentries_of(r@) =~= full);
            assert(r@ =~~= spec_obj_append_absent(ctx@, k@, v@));
        }
        r
    } else {
        let ghost before = out@;
        out.push((String::from_str(k), v));
        let r = Json::Obj(out);
        proof {
            assert(obj_entries_view(out@) =~= obj_entries_view(before).push((k@, v@)));
            assert(jentries_of(r@) =~= obj_entries_view(out@));
            assert(jentries_of(r@) =~= full.push((k@, v@)));
            assert(r@ =~~= spec_obj_append_absent(ctx@, k@, v@));
        }
        r
    }
}

/// The abstract entries of an object's backing vector.
pub open spec fn obj_entries_view(e: Seq<(String, Json)>) -> Seq<(Seq<char>, JsonV)> {
    Seq::new(
        e.len(),
        |i: int|
            if 0 <= i < e.len() {
                (e[i].0@, json_view(e[i].1))
            } else {
                arbitrary()
            },
    )
}

/// Rebuilds a parsed `serde_json` value as a `Json` tree.
/// Relies on `serde_json::Value` exposing its variants and on
/// `serde_json::Number::to_string` for the numeric literal.
#[verifier::external_body]
fn json_of_value(v: &serde_json::Value) -> Json {
    match v {
        serde_json::Value::Null => Json::Null,
        serde_json::Value::Bool(b) => Json::Bool(*b),
        serde_json::Value::Number(n) => Json::Num(n.to_string()),
        serde_json::Value::String(s) => Json::Str(s.clone()),
        serde_json::Value::Array(items) => Json::Arr(items.iter().map(json_of_value).collect()),
        serde_json::Value::Object(entries) => Json::Obj(
            entries.iter().map(|(k, v)| (k.clone(), json_of_value(v))).collect(),
        ),
    }
}

} // verus!
