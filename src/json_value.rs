use vstd::prelude::*;

verus! {

#[verifier::external_type_specification]
#[verifier::external_body]
pub struct ExJsonValue(json::JsonValue);

/// The value that JSON text denotes, or `None` where the text is not JSON.
pub uninterp spec fn json_text_value(s: Seq<char>) -> Option<Json>;

/// The compact JSON text of a value.
pub uninterp spec fn json_text(v: Json) -> Seq<char>;

/// Relies on `json::parse`: the value that the text holds, or an error
/// where it is not JSON. The result depends on the text alone.
#[verifier::external_body]
pub(crate) fn parse_json(s: &str) -> (r: Option<Json>)
    ensures
        r == json_text_value(s@),
{
    json::parse(s).ok().map(from_outside)
}

/// Relies on `json::JsonValue::dump`: compact JSON text of the value.
#[verifier::external_body]
pub(crate) fn dump_json(v: &Json) -> (r: String)
    ensures
        r@ == json_text(*v),
{
    to_outside(v).dump()
}

/// Moves each variant of a `json::JsonValue` into the matching variant of `Json`.
#[verifier::external_body]
fn from_outside(v: json::JsonValue) -> Json {
    match v {
        json::JsonValue::Null => Json::Null,
        json::JsonValue::Short(s) => Json::Str(s.as_str().to_string()),
        json::JsonValue::String(s) => Json::Str(s),
        json::JsonValue::Number(n) => {
            let (positive, mantissa, exponent) = n.as_parts();
            Json::Number(JsonNumber { positive, mantissa, exponent })
        },
        json::JsonValue::Boolean(b) => Json::Bool(b),
        json::JsonValue::Object(o) => Json::Object(
            o.iter().map(|(k, v)| (k.to_string(), from_outside(v.clone()))).collect(),
        ),
        json::JsonValue::Array(a) => Json::Array(a.into_iter().map(from_outside).collect()),
    }
}

/// Builds the `json::JsonValue` that holds the same variants as a `Json`.
#[verifier::external_body]
fn to_outside(v: &Json) -> json::JsonValue {
    match v {
        Json::Null => json::JsonValue::Null,
        Json::Bool(b) => json::JsonValue::Boolean(*b),
        Json::Number(n) => json::JsonValue::Number(
            json::number::Number::from_parts(n.positive, n.mantissa, n.exponent),
        ),
        Json::Str(s) => json::JsonValue::String(s.clone()),
        Json::Array(a) => json::JsonValue::Array(a.iter().map(to_outside).collect()),
        Json::Object(ms) => json::JsonValue::Object(
            ms.iter().map(|(k, v)| (k.as_str(), to_outside(v))).collect(),
        ),
    }
}

/// A JSON number as sign, decimal mantissa and decimal exponent
/// (value = ±mantissa × 10^exponent).
#[derive(Clone, Copy, Debug, PartialEq, Eq, Structural)]
pub struct JsonNumber {
    pub positive: bool,
    pub mantissa: u64,
    pub exponent: i16,
}

/// A JSON value. Object members keep their order.
#[derive(Debug)]
pub enum Json {
    Null,
    Bool(bool),
    Number(JsonNumber),
    Str(String),
    Array(Vec<Json>),
    Object(Vec<(String, Json)>),
}

/// Number of non-null items among the first `i` items of `xs`.
#[verifier::opaque]
pub open spec fn kept_before(xs: Seq<Json>, i: int) -> nat
    decreases i,
{
    if i <= 0 {
        0
    } else if xs[i - 1] is Null {
        kept_before(xs, i - 1)
    } else {
        kept_before(xs, i - 1) + 1
    }
}

/// Number of non-null values among the first `i` members of `ms`.
#[verifier::opaque]
pub open spec fn kept_members_before(ms: Seq<(String, Json)>, i: int) -> nat
    decreases i,
{
    if i <= 0 {
        0
    } else if ms[i - 1].1 is Null {
        kept_members_before(ms, i - 1)
    } else {
        kept_members_before(ms, i - 1) + 1
    }
}

/// `r` is `x` with every null array item and every null object member
/// removed, at every depth. A value that is neither an array nor an
/// object is kept as it is.
pub open spec fn is_scrubbed(r: Json, x: Json) -> bool
    decreases x,
{
    match x {
        Json::Array(xs) => match r {
            Json::Array(rs) => {
                &&& rs@.len() == kept_before(xs@, xs@.len() as int)
                &&& forall|i: int|
                    0 <= i < xs@.len() && !(#[trigger] xs@[i] is Null) ==> is_scrubbed(
                        rs@[kept_before(xs@, i) as int],
                        xs@[i],
                    )
            },
            _ => false,
        },
        Json::Object(ms) => match r {
            Json::Object(rs) => {
                &&& rs@.len() == kept_members_before(ms@, ms@.len() as int)
                &&& forall|i: int|
                    0 <= i < ms@.len() && !(#[trigger] ms@[i].1 is Null) ==> {
                        &&& rs@[kept_members_before(ms@, i) as int].0@ == ms@[i].0@
                        &&& is_scrubbed(rs@[kept_members_before(ms@, i) as int].1, ms@[i].1)
                    }
            },
            _ => false,
        },
        _ => r == x,
    }
}

/// `v` holds no null below its top level.
pub open spec fn null_free(v: Json) -> bool
    decreases v,
{
    match v {
        Json::Array(xs) => forall|i: int|
            0 <= i < xs@.len() ==> !(#[trigger] xs@[i] is Null) && null_free(xs@[i]),
        Json::Object(ms) => forall|i: int|
            0 <= i < ms@.len() ==> !(#[trigger] ms@[i].1 is Null) && null_free(ms@[i].1),
        _ => true,
    }
}

proof fn lemma_kept_before_step(xs: Seq<Json>, i: int)
    requires
        0 <= i < xs.len(),
    ensures
        kept_before(xs, i + 1) == kept_before(xs, i) + if xs[i] is Null { 0nat } else { 1nat },
{
    reveal(kept_before);
}

proof fn lemma_kept_before_mono(xs: Seq<Json>, i: int, j: int)
    requires
        0 <= i <= j <= xs.len(),
    ensures
        kept_before(xs, i) <= kept_before(xs, j),
        !(xs[i] is Null) && i < j ==> kept_before(xs, i) < kept_before(xs, j),
    decreases j - i,
{
    if i < j {
        lemma_kept_before_mono(xs, i, j - 1);
        lemma_kept_before_step(xs, j - 1);
    }
}

proof fn lemma_kept_members_step(ms: Seq<(String, Json)>, i: int)
    requires
        0 <= i < ms.len(),
    ensures
        kept_members_before(ms, i + 1) == kept_members_before(ms, i) + if ms[i].1 is Null {
            0nat
        } else {
            1nat
        },
{
    reveal(kept_members_before);
}

proof fn lemma_kept_members_mono(ms: Seq<(String, Json)>, i: int, j: int)
    requires
        0 <= i <= j <= ms.len(),
    ensures
        kept_members_before(ms, i) <= kept_members_before(ms, j),
        !(ms[i].1 is Null) && i < j ==> kept_members_before(ms, i) < kept_members_before(ms, j),
    decreases j - i,
{
    if i < j {
        lemma_kept_members_mono(ms, i, j - 1);
        lemma_kept_members_step(ms, j - 1);
    }
}

/// Every position of a scrubbed array or object is the image of exactly
/// one non-null source position, so a scrubbed value holds no null below
/// its top level.
pub proof fn lemma_scrubbed_is_null_free(r: Json, x: Json)
    requires
        is_scrubbed(r, x),
    ensures
        null_free(r),
    decreases x,
{
    match x {
        Json::Array(xs) => {
            let rs = r->Array_0;
            assert forall|k: int| 0 <= k < rs@.len() implies !(#[trigger] rs@[k] is Null)
                && null_free(rs@[k]) by {
                let i = choose_source(xs@, k);
                lemma_scrubbed_not_null(rs@[kept_before(xs@, i) as int], xs@[i]);
                lemma_scrubbed_is_null_free(rs@[k], xs@[i]);
            }
        },
        Json::Object(ms) => {
            let rs = r->Object_0;
            assert forall|k: int| 0 <= k < rs@.len() implies !(#[trigger] rs@[k].1 is Null)
                && null_free(rs@[k].1) by {
                let i = choose_member_source(ms@, k);
                lemma_scrubbed_not_null(rs@[kept_members_before(ms@, i) as int].1, ms@[i].1);
                lemma_scrubbed_is_null_free(rs@[k].1, ms@[i].1);
            }
        },
        _ => {},
    }
}

proof fn lemma_scrubbed_not_null(r: Json, x: Json)
    requires
        is_scrubbed(r, x),
        !(x is Null),
    ensures
        !(r is Null),
{
}

/// The source position of the `k`-th kept item.
proof fn choose_source(xs: Seq<Json>, k: int) -> (i: int)
    requires
        0 <= k < kept_before(xs, xs.len() as int),
    ensures
        0 <= i < xs.len(),
        !(xs[i] is Null),
        kept_before(xs, i) == k,
    decreases xs.len(),
{
    reveal(kept_before);
    let n = xs.len() as int;
    lemma_kept_before_step(xs, n - 1);
    let last = xs[n - 1];
    let init = xs.drop_last();
    assert forall|j: int| 0 <= j <= n - 1 implies kept_before(init, j) == kept_before(xs, j) by {
        lemma_kept_before_prefix(xs, init, j);
    }
    if !(last is Null) && k == kept_before(xs, n - 1) {
        n - 1
    } else {
        choose_source(init, k)
    }
}

proof fn lemma_kept_before_prefix(xs: Seq<Json>, init: Seq<Json>, j: int)
    requires
        0 <= j <= init.len() <= xs.len(),
        forall|t: int| 0 <= t < init.len() ==> init[t] == xs[t],
    ensures
        kept_before(init, j) == kept_before(xs, j),
    decreases j,
{
    reveal(kept_before);
    if j > 0 {
        lemma_kept_before_prefix(xs, init, j - 1);
    }
}

proof fn choose_member_source(ms: Seq<(String, Json)>, k: int) -> (i: int)
    requires
        0 <= k < kept_members_before(ms, ms.len() as int),
    ensures
        0 <= i < ms.len(),
        !(ms[i].1 is Null),
        kept_members_before(ms, i) == k,
    decreases ms.len(),
{
    reveal(kept_members_before);
    let n = ms.len() as int;
    lemma_kept_members_step(ms, n - 1);
    let init = ms.drop_last();
    assert forall|j: int| 0 <= j <= n - 1 implies kept_members_before(init, j)
        == kept_members_before(ms, j) by {
        lemma_kept_members_prefix(ms, init, j);
    }
    if !(ms[n - 1].1 is Null) && k == kept_members_before(ms, n - 1) {
        n - 1
    } else {
        choose_member_source(init, k)
    }
}

proof fn lemma_kept_members_prefix(ms: Seq<(String, Json)>, init: Seq<(String, Json)>, j: int)
    requires
        0 <= j <= init.len() <= ms.len(),
        forall|t: int| 0 <= t < init.len() ==> init[t] == ms[t],
    ensures
        kept_members_before(init, j) == kept_members_before(ms, j),
    decreases j,
{
    reveal(kept_members_before);
    if j > 0 {
        lemma_kept_members_prefix(ms, init, j - 1);
    }
}

impl Json {
    /// The value that JSON text denotes; `None` where the text is not JSON.
    pub fn parse(text: &str) -> (r: Option<Json>)
        ensures
            r == json_text_value(text@),
    {
        parse_json(text)
    }

    /// Compact JSON text of the value.
    pub fn dump(&self) -> (r: String)
        ensures
            r@ == json_text(*self),
    {
        dump_json(self)
    }

    pub fn is_null(&self) -> (r: bool)
        ensures
            r == (*self is Null),
    {
        match self {
            Json::Null => true,
            _ => false,
        }
    }

    /// The text of a JSON string value.
    pub fn as_str(&self) -> (r: Option<&str>)
        ensures
            match *self {
                Json::Str(s) => r is Some && r->Some_0@ == s@,
                _ => r is None,
            },
    {
        match self {
            Json::Str(s) => Some(s.as_str()),
            _ => None,
        }
    }
}

/// The value of the first member named `key`.
pub open spec fn member_of(ms: Seq<(String, Json)>, key: Seq<char>) -> Option<Json>
    decreases ms.len(),
{
    if ms.len() == 0 {
        None
    } else if ms[0].0@ == key {
        Some(ms[0].1)
    } else {
        member_of(ms.drop_first(), key)
    }
}

/// The member `key` of an object; `None` for other values.
pub open spec fn field(v: Json, key: Seq<char>) -> Option<Json> {
    match v {
        Json::Object(ms) => member_of(ms@, key),
        _ => None,
    }
}

/// The text of member `key` where it is a JSON string.
pub open spec fn str_field(v: Json, key: Seq<char>) -> Option<Seq<char>> {
    match field(v, key) {
        Some(Json::Str(s)) => Some(s@),
        _ => None,
    }
}

fn find_member(ms: &Vec<(String, Json)>, key: &str) -> (r: Option<usize>)
    ensures
        match r {
            Some(i) => {
                &&& i < ms@.len()
                &&& member_of(ms@, key@) == Some(ms@[i as int].1)
                &&& ms@[i as int].0@ == key@
                &&& forall|j: int| 0 <= j < i ==> (#[trigger] ms@[j]).0@ != key@
            },
            None => member_of(ms@, key@) is None,
        },
{
    let mut i: usize = 0;
    assert(ms@.subrange(0, ms@.len() as int) == ms@);
    while i < ms.len()
        invariant
            i <= ms@.len(),
            forall|j: int| 0 <= j < i ==> (#[trigger] ms@[j]).0@ != key@,
            member_of(ms@, key@) == member_of(ms@.subrange(i as int, ms@.len() as int), key@),
        decreases ms@.len() - i,
    {
        let ghost rest = ms@.subrange(i as int, ms@.len() as int);
        assert(rest.drop_first() == ms@.subrange(i + 1, ms@.len() as int));
        if crate::text::same_text(ms[i].0.as_str(), key) {
            return Some(i);
        }
        i = i + 1;
    }
    None
}

/// `r` is an object that agrees with `v` on every member but `key`.
pub open spec fn agrees_except(r: Json, v: Json, key: Seq<char>) -> bool {
    &&& r is Object
    &&& forall|k: Seq<char>| k != key ==> #[trigger] field(r, k) == field(v, k)
}

proof fn lemma_member_update(ms: Seq<(String, Json)>, i: int, m: (String, Json), key: Seq<char>, k2: Seq<char>)
    requires
        0 <= i < ms.len(),
        ms[i].0@ == key,
        m.0@ == key,
        forall|j: int| 0 <= j < i ==> (#[trigger] ms[j]).0@ != key,
    ensures
        member_of(ms.update(i, m), key) == Some(m.1),
        k2 != key ==> member_of(ms.update(i, m), k2) == member_of(ms, k2),
    decreases ms.len(),
{
    let u = ms.update(i, m);
    if i > 0 {
        assert(u.drop_first() == ms.drop_first().update(i - 1, m));
        assert forall|j: int| 0 <= j < i - 1 implies (#[trigger] ms.drop_first()[j]).0@ != key by {
            assert(ms.drop_first()[j] == ms[j + 1]);
        }
        lemma_member_update(ms.drop_first(), i - 1, m, key, k2);
    } else {
        assert(u.drop_first() == ms.drop_first());
    }
}

proof fn lemma_member_push(ms: Seq<(String, Json)>, m: (String, Json), key: Seq<char>, k2: Seq<char>)
    requires
        member_of(ms, key) is None,
        m.0@ == key,
    ensures
        member_of(ms.push(m), key) == Some(m.1),
        k2 != key ==> member_of(ms.push(m), k2) == member_of(ms, k2),
    decreases ms.len(),
{
    if ms.len() > 0 {
        assert(ms.push(m).drop_first() == ms.drop_first().push(m));
        assert(ms.push(m)[0] == ms[0]);
        lemma_member_push(ms.drop_first(), m, key, k2);
        if k2 != key {
            if ms[0].0@ == k2 {
                assert(member_of(ms, k2) == Some(ms[0].1));
                assert(member_of(ms.push(m), k2) == Some(ms[0].1));
            } else {
                assert(member_of(ms, k2) == member_of(ms.drop_first(), k2));
                assert(member_of(ms.push(m), k2) == member_of(ms.drop_first().push(m), k2));
            }
        }
    } else {
        assert(ms.push(m)[0] == m);
        assert(ms.push(m).drop_first() =~= Seq::<(String, Json)>::empty());
        assert(member_of(ms.push(m).drop_first(), k2) is None);
        assert(member_of(ms, k2) is None);
    }
}

impl Json {
    /// Sets member `key` of an object to `val`: the first such member is
    /// replaced in place, or a member is added at the end. Returns the
    /// object and the value the member had.
    pub fn replace_member(self, key: &str, val: Json) -> (r: (Json, Option<Json>))
        requires
            self is Object,
        ensures
            agrees_except(r.0, self, key@),
            field(r.0, key@) == Some(val),
            r.1 == field(self, key@),
    {
        let ghost v0 = self;
        let mut ms = match self {
            Json::Object(ms) => ms,
            _ => Vec::new(),
        };
        let ghost before = ms@;
        match find_member(&ms, key) {
            Some(i) => {
                let (k, old_val) = ms.remove(i);
                ms.insert(i, (k, val));
                proof {
                    assert(ms@ == before.update(i as int, (k, val)));
                    assert forall|k2: Seq<char>| k2 != key@ implies #[trigger] field(
                        Json::Object(ms),
                        k2,
                    ) == field(v0, k2) by {
                        lemma_member_update(before, i as int, (k, val), key@, k2);
                    }
                    lemma_member_update(before, i as int, (k, val), key@, key@);
                }
                (Json::Object(ms), Some(old_val))
            },
            None => {
                ms.push((key.to_owned(), val));
                proof {
                    let m2 = ms@.last();
                    assert(ms@ == before.push(m2));
                    assert forall|k2: Seq<char>| k2 != key@ implies #[trigger] field(
                        Json::Object(ms),
                        k2,
                    ) == field(v0, k2) by {
                        lemma_member_push(before, m2, key@, k2);
                    }
                    lemma_member_push(before, m2, key@, key@);
                }
                (Json::Object(ms), None)
            },
        }
    }

    /// The member `key` of an object.
    pub fn get(&self, key: &str) -> (r: Option<&Json>)
        ensures
            match field(*self, key@) {
                Some(v) => r is Some && *r->Some_0 == v,
                None => r is None,
            },
    {
        match self {
            Json::Object(ms) => {
                proof {
                    assert(ms@.subrange(0, ms@.len() as int) == ms@);
                }
                match find_member(ms, key) {
                    Some(i) => Some(&ms[i].1),
                    None => None,
                }
            },
            _ => None,
        }
    }

    /// Takes the member `key` out of an object.
    pub fn into_field(self, key: &str) -> (r: Option<Json>)
        ensures
            r == field(self, key@),
    {
        match self {
            Json::Object(ms) => {
                proof {
                    assert(ms@.subrange(0, ms@.len() as int) == ms@);
                }
                match find_member(&ms, key) {
                    Some(i) => {
                        let mut ms = ms;
                        Some(ms.remove(i).1)
                    },
                    None => None,
                }
            },
            _ => None,
        }
    }
}

/// Removes every null array item and every null object member, at every
/// depth, keeping the order of what stays.
pub fn scrub_nulls(value: Json) -> (r: Json)
    ensures
        is_scrubbed(r, value),
        !(value is Array) && !(value is Object) ==> r == value,
    decreases value, 1int,
{
    match value {
        Json::Array(_) => scrub_array(value),
        Json::Object(_) => scrub_object(value),
        _ => value,
    }
}

proof fn lemma_member_decreases(value: Json, j: int)
    requires
        value is Object,
        0 <= j < value->Object_0@.len(),
    ensures
        decreases_to!(value => value->Object_0@[j].1),
{
    let ms = value->Object_0;
    assert(decreases_to!(ms@ => ms@[j]));
}

#[verifier::rlimit(100)]
fn scrub_array(value: Json) -> (r: Json)
    requires
        value is Array,
    ensures
        is_scrubbed(r, value),
    decreases value, 0int,
{
    let ghost orig = value->Array_0@;
    let mut items = match value {
        Json::Array(items) => items,
        _ => Vec::new(),
    };
    let n = items.len();
    let mut out: Vec<Json> = Vec::new();
    let mut i: usize = 0;
    proof {
        reveal(kept_before);
    }
    while items.len() > 0
        invariant
            orig.len() == n,
            i + items@.len() == orig.len(),
            items@ == orig.subrange(i as int, orig.len() as int),
            out@.len() == kept_before(orig, i as int),
            forall|j: int|
                0 <= j < i && !(#[trigger] orig[j] is Null) ==> is_scrubbed(
                    out@[kept_before(orig, j) as int],
                    orig[j],
                ),
            forall|j: int| 0 <= j < orig.len() ==> decreases_to!(value => #[trigger] orig[j]),
        decreases items@.len(),
    {
        let item = items.remove(0);
        assert(item == orig[i as int]);
        proof {
            lemma_kept_before_step(orig, i as int);
        }
        if !item.is_null() {
            let s = scrub_nulls(item);
            out.push(s);
            proof {
                assert forall|j: int|
                    0 <= j < i + 1 && !(#[trigger] orig[j] is Null) implies is_scrubbed(
                    out@[kept_before(orig, j) as int],
                    orig[j],
                ) by {
                    if j < i {
                        lemma_kept_before_mono(orig, j, i as int);
                    }
                }
            }
        }
        i = i + 1;
    }
    Json::Array(out)
}

/// The first `i` members of `orig` are scrubbed into `out`.
#[verifier::opaque]
spec fn members_done(orig: Seq<(String, Json)>, out: Seq<(String, Json)>, i: int) -> bool {
    &&& out.len() == kept_members_before(orig, i)
    &&& forall|j: int|
        0 <= j < i && !(#[trigger] orig[j].1 is Null) ==> {
            &&& out[kept_members_before(orig, j) as int].0@ == orig[j].0@
            &&& is_scrubbed(out[kept_members_before(orig, j) as int].1, orig[j].1)
        }
}

proof fn lemma_members_start(orig: Seq<(String, Json)>)
    ensures
        members_done(orig, Seq::empty(), 0),
{
    reveal(members_done);
    reveal(kept_members_before);
}

proof fn lemma_members_skip(orig: Seq<(String, Json)>, out: Seq<(String, Json)>, i: int)
    requires
        0 <= i < orig.len(),
        orig[i].1 is Null,
        members_done(orig, out, i),
    ensures
        members_done(orig, out, i + 1),
{
    reveal(members_done);
    lemma_kept_members_step(orig, i);
}

proof fn lemma_members_keep(
    orig: Seq<(String, Json)>,
    out: Seq<(String, Json)>,
    i: int,
    m: (String, Json),
)
    requires
        0 <= i < orig.len(),
        !(orig[i].1 is Null),
        members_done(orig, out, i),
        m.0@ == orig[i].0@,
        is_scrubbed(m.1, orig[i].1),
    ensures
        members_done(orig, out.push(m), i + 1),
{
    reveal(members_done);
    lemma_kept_members_step(orig, i);
    let next = out.push(m);
    assert forall|j: int| 0 <= j < i + 1 && !(#[trigger] orig[j].1 is Null) implies {
        &&& next[kept_members_before(orig, j) as int].0@ == orig[j].0@
        &&& is_scrubbed(next[kept_members_before(orig, j) as int].1, orig[j].1)
    } by {
        if j < i {
            lemma_kept_members_mono(orig, j, i);
        }
    }
}

proof fn lemma_members_finish(value: Json, r: Json)
    requires
        value is Object,
        r is Object,
        members_done(value->Object_0@, r->Object_0@, value->Object_0@.len() as int),
    ensures
        is_scrubbed(r, value),
{
    reveal(members_done);
}

fn scrub_object(value: Json) -> (r: Json)
    requires
        value is Object,
    ensures
        is_scrubbed(r, value),
    decreases value, 0int,
{
    let ghost orig = value->Object_0@;
    let mut members = match value {
        Json::Object(members) => members,
        _ => Vec::new(),
    };
    let n = members.len();
    let mut out: Vec<(String, Json)> = Vec::new();
    let mut i: usize = 0;
    proof {
        lemma_members_start(orig);
    }
    while members.len() > 0
        invariant
            orig.len() == n,
            i + members@.len() == orig.len(),
            members@ == orig.subrange(i as int, orig.len() as int),
            members_done(orig, out@, i as int),
            value is Object,
            value->Object_0@ == orig,
        decreases members@.len(),
    {
        let (key, item) = members.remove(0);
        assert(item == orig[i as int].1 && key == orig[i as int].0);
        if item.is_null() {
            proof {
                lemma_members_skip(orig, out@, i as int);
            }
        } else {
            proof {
                lemma_member_decreases(value, i as int);
            }
            let s = scrub_nulls(item);
            proof {
                lemma_members_keep(orig, out@, i as int, (key, s));
            }
            out.push((key, s));
        }
        i = i + 1;
    }
    let r = Json::Object(out);
    proof {
        lemma_members_finish(value, r);
    }
    r
}

} // verus!
