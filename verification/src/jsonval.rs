use vstd::prelude::*;

use crate::strutil::{lex_lt, str_eq, str_lt};

verus! {

/// Mathematical model of a decoded value tree: JSON extended with the byte
/// strings that the binary wire encoding can carry.
pub enum JVal {
    Null,
    Bool(bool),
    Int(int),
    Text(Seq<char>),
    Bytes(Seq<u8>),
    Arr(Seq<JVal>),
    Obj(Seq<(Seq<char>, JVal)>),
}

/// Executable value tree. Non-negative numbers beyond `i64` use `UInt`; both
/// integer variants share the mathematical `JVal::Int` model.
#[derive(Debug)]
pub enum JsonValue {
    Null,
    Bool(bool),
    Int(i64),
    UInt(u64),
    Text(String),
    Bytes(Vec<u8>),
    Array(Vec<JsonValue>),
    Object(Vec<(String, JsonValue)>),
}

impl View for JsonValue {
    type V = JVal;

    open spec fn view(&self) -> JVal
        decreases self,
    {
        match self {
            JsonValue::Null => JVal::Null,
            JsonValue::Bool(b) => JVal::Bool(*b),
            JsonValue::Int(n) => JVal::Int(*n as int),
            JsonValue::UInt(n) => JVal::Int(*n as int),
            JsonValue::Text(s) => JVal::Text(s@),
            JsonValue::Bytes(b) => JVal::Bytes(b@),
            JsonValue::Array(items) => JVal::Arr(arr_view(items@)),
            JsonValue::Object(fields) => JVal::Obj(fields_view(fields@)),
        }
    }
}

/// View of a sequence of array elements.
pub open spec fn arr_view(s: Seq<JsonValue>) -> Seq<JVal>
    decreases s,
{
    Seq::new(
        s.len(),
        |i: int|
            if 0 <= i < s.len() {
                s[i]@
            } else {
                JVal::Null
            },
    )
}

/// View of a sequence of object fields.
pub open spec fn fields_view(s: Seq<(String, JsonValue)>) -> Seq<(Seq<char>, JVal)>
    decreases s,
{
    Seq::new(
        s.len(),
        |i: int|
            if 0 <= i < s.len() {
                (s[i].0@, s[i].1@)
            } else {
                (Seq::empty(), JVal::Null)
            },
    )
}

/// First field with the given key, if any.
pub open spec fn obj_get(fields: Seq<(Seq<char>, JVal)>, key: Seq<char>) -> Option<JVal>
    decreases fields.len(),
{
    if fields.len() == 0 {
        None
    } else if fields[0].0 == key {
        Some(fields[0].1)
    } else {
        obj_get(fields.drop_first(), key)
    }
}

/// Looks a key up in an object value; `None` for other shapes or absent keys.
pub open spec fn jv_get(v: JVal, key: Seq<char>) -> Option<JVal> {
    match v {
        JVal::Obj(fields) => obj_get(fields, key),
        _ => None,
    }
}

impl JsonValue {
    /// Whether this value is the null value.
    pub fn is_null(&self) -> (r: bool)
        ensures
            r == (self@ is Null),
    {
        match self {
            JsonValue::Null => true,
            _ => false,
        }
    }

    /// First field with the given key, when this value is an object.
    pub fn get_field<'a>(&'a self, key: &str) -> (r: Option<&'a JsonValue>)
        ensures
            match r {
                Some(v) => jv_get(self@, key@) == Some(v@),
                None => jv_get(self@, key@) is None,
            },
    {
        match self {
            JsonValue::Object(fields) => {
                let ghost fs = fields_view(fields@);
                proof {
                    assert(fs.skip(0) =~= fs);
                }
                let n = fields.len();
                let mut i: usize = 0;
                while i < n
                    invariant
                        n == fields.len(),
                        i <= n,
                        self@ == JVal::Obj(fs),
                        fs == fields_view(fields@),
                        obj_get(fs, key@) == obj_get(fs.skip(i as int), key@),
                    decreases n - i,
                {
                    proof {
                        assert(fs.skip(i as int)[0] == fs[i as int]);
                        assert(fs.skip(i as int).drop_first() =~= fs.skip(i as int + 1));
                    }
                    if str_eq(fields[i].0.as_str(), key) {
                        return Some(&fields[i].1);
                    }
                    i += 1;
                }
                proof {
                    assert(fs.skip(n as int).len() == 0);
                }
                None
            },
            _ => None,
        }
    }

    /// The string contents, when this value is text.
    pub fn as_text<'a>(&'a self) -> (r: Option<&'a String>)
        ensures
            match r {
                Some(s) => self@ == JVal::Text(s@),
                None => !(self@ is Text),
            },
    {
        match self {
            JsonValue::Text(s) => Some(s),
            _ => None,
        }
    }
}

/// Inserts a field into a key-sorted field list, before any equal key.
pub open spec fn insert_field_sorted(
    f: (Seq<char>, JVal),
    fields: Seq<(Seq<char>, JVal)>,
) -> Seq<(Seq<char>, JVal)>
    decreases fields.len(),
{
    if fields.len() == 0 {
        seq![f]
    } else if lex_lt(fields[0].0, f.0) {
        seq![fields[0]] + insert_field_sorted(f, fields.drop_first())
    } else {
        seq![f] + fields
    }
}

/// Insertion sort of object fields by key.
pub open spec fn sort_fields(fields: Seq<(Seq<char>, JVal)>) -> Seq<(Seq<char>, JVal)>
    decreases fields.len(),
{
    if fields.len() == 0 {
        fields
    } else {
        insert_field_sorted(fields[0], sort_fields(fields.drop_first()))
    }
}

proof fn lemma_insert_sorted_window(f: (Seq<char>, JVal), s: Seq<(Seq<char>, JVal)>, p: int)
    requires
        0 <= p <= s.len(),
        forall|j: int| 0 <= j < p ==> lex_lt(#[trigger] s[j].0, f.0),
        p < s.len() ==> !lex_lt(s[p].0, f.0),
    ensures
        insert_field_sorted(f, s) == s.take(p) + seq![f] + s.skip(p),
    decreases p,
{
    if p == 0 {
        if s.len() == 0 {
            assert(s.take(0) + seq![f] + s.skip(0) =~= seq![f]);
        } else {
            assert(s.take(0) + seq![f] + s.skip(0) =~= seq![f] + s);
        }
    } else {
        assert(lex_lt(s[0].0, f.0));
        lemma_insert_sorted_window(f, s.drop_first(), p - 1);
        assert(s.take(p) + seq![f] + s.skip(p) =~= seq![s[0]] + (s.drop_first().take(p - 1)
            + seq![f] + s.drop_first().skip(p - 1)));
    }
}

impl JsonValue {
    /// A structurally equal copy of this value.
    pub fn deep_clone(&self) -> (r: JsonValue)
        ensures
            r@ == self@,
        decreases self,
    {
        match self {
            JsonValue::Null => JsonValue::Null,
            JsonValue::Bool(b) => JsonValue::Bool(*b),
            JsonValue::Int(n) => JsonValue::Int(*n),
            JsonValue::UInt(n) => JsonValue::UInt(*n),
            JsonValue::Text(s) => JsonValue::Text(s.clone()),
            JsonValue::Bytes(b) => JsonValue::Bytes(vstd::slice::slice_to_vec(b.as_slice())),
            JsonValue::Array(items) => {
                let n = items.len();
                let mut out: Vec<JsonValue> = Vec::new();
                let mut i: usize = 0;
                while i < n
                    invariant
                        *self == JsonValue::Array(*items),
                        n == items.len(),
                        i <= n,
                        out@.len() == i,
                        forall|k: int| 0 <= k < i ==> out@[k]@ == items@[k]@,
                    decreases n - i,
                {
                    proof {
                        assert(decreases_to!(*self => self->Array_0));
                        assert(decreases_to!(self->Array_0 => self->Array_0@));
                        assert(decreases_to!(self->Array_0@ => self->Array_0@[i as int]));
                    }
                    let c = items[i].deep_clone();
                    out.push(c);
                    i += 1;
                }
                let r = JsonValue::Array(out);
                proof {
                    assert(r@->Arr_0 =~= self@->Arr_0);
                }
                r
            },
            JsonValue::Object(fields) => {
                let n = fields.len();
                let mut out: Vec<(String, JsonValue)> = Vec::new();
                let mut i: usize = 0;
                while i < n
                    invariant
                        *self == JsonValue::Object(*fields),
                        n == fields.len(),
                        i <= n,
                        out@.len() == i,
                        forall|k: int|
                            0 <= k < i ==> out@[k].0@ == fields@[k].0@ && out@[k].1@
                                == fields@[k].1@,
                    decreases n - i,
                {
                    let key = fields[i].0.clone();
                    proof {
                        assert(decreases_to!(*self => self->Object_0));
                        assert(decreases_to!(self->Object_0 => self->Object_0@));
                        assert(decreases_to!(self->Object_0@ => self->Object_0@[i as int]));
                        assert(decreases_to!(self->Object_0@[i as int] => self->Object_0@[
                            i as int
                        ].1));
                    }
                    let val = fields[i].1.deep_clone();
                    out.push((key, val));
                    i += 1;
                }
                let r = JsonValue::Object(out);
                proof {
                    assert(r@->Obj_0 =~= self@->Obj_0);
                }
                r
            },
        }
    }

    /// The canonical form of this value: object keys sorted recursively.
    pub fn canonical(&self) -> (r: JsonValue)
        ensures
            r@ == canon(self@),
        decreases self,
    {
        match self {
            JsonValue::Array(items) => {
                let n = items.len();
                let mut out: Vec<JsonValue> = Vec::new();
                let mut i: usize = 0;
                while i < n
                    invariant
                        *self == JsonValue::Array(*items),
                        n == items.len(),
                        i <= n,
                        out@.len() == i,
                        forall|k: int| 0 <= k < i ==> out@[k]@ == canon(items@[k]@),
                    decreases n - i,
                {
                    proof {
                        assert(decreases_to!(*self => self->Array_0));
                        assert(decreases_to!(self->Array_0 => self->Array_0@));
                        assert(decreases_to!(self->Array_0@ => self->Array_0@[i as int]));
                    }
                    let c = items[i].canonical();
                    out.push(c);
                    i += 1;
                }
                let r = JsonValue::Array(out);
                proof {
                    assert(r@->Arr_0 =~= canon(self@)->Arr_0);
                }
                r
            },
            JsonValue::Object(fields) => {
                let ghost mapped = canon_fields(fields_view(fields@));
                let n = fields.len();
                let mut out: Vec<(String, JsonValue)> = Vec::new();
                proof {
                    assert(mapped.skip(n as int) =~= Seq::<(Seq<char>, JVal)>::empty());
                    assert(fields_view(out@) =~= Seq::<(Seq<char>, JVal)>::empty());
                }
                let mut i: usize = n;
                while i > 0
                    invariant
                        *self == JsonValue::Object(*fields),
                        n == fields.len(),
                        i <= n,
                        mapped == canon_fields(fields_view(fields@)),
                        mapped.len() == n,
                        fields_view(out@) == sort_fields(mapped.skip(i as int)),
                    decreases i,
                {
                    i -= 1;
                    let key = fields[i].0.clone();
                    proof {
                        assert(decreases_to!(*self => self->Object_0));
                        assert(decreases_to!(self->Object_0 => self->Object_0@));
                        assert(decreases_to!(self->Object_0@ => self->Object_0@[i as int]));
                        assert(decreases_to!(self->Object_0@[i as int] => self->Object_0@[
                            i as int
                        ].1));
                    }
                    let val = fields[i].1.canonical();
                    proof {
                        let ghost fi = fields@[i as int];
                        assert(fields_view(fields@)[i as int] == (fi.0@, fi.1@));
                        assert(mapped[i as int] == (key@, val@));
                    }
                    let m = out.len();
                    let mut p: usize = 0;
                    while p < m && str_lt(out[p].0.as_str(), key.as_str())
                        invariant
                            m == out.len(),
                            p <= m,
                            forall|j: int|
                                0 <= j < p ==> lex_lt(#[trigger] fields_view(out@)[j].0, key@),
                        decreases m - p,
                    {
                        proof {
                            assert(fields_view(out@)[p as int].0 == out@[p as int].0@);
                        }
                        p += 1;
                    }
                    proof {
                        if p < m {
                            assert(fields_view(out@)[p as int].0 == out@[p as int].0@);
                        }
                        lemma_insert_sorted_window((key@, val@), fields_view(out@), p as int);
                    }
                    let ghost old_out = out@;
                    out.insert(p, (key, val));
                    proof {
                        assert(fields_view(out@) =~= fields_view(old_out).take(p as int) + seq![
                            (key@, val@),
                        ] + fields_view(old_out).skip(p as int));
                        assert(mapped.skip(i as int)[0] == mapped[i as int]);
                        assert(mapped.skip(i as int).drop_first() =~= mapped.skip(i as int + 1));
                        assert(fields_view(out@) == insert_field_sorted(
                            mapped[i as int],
                            sort_fields(mapped.skip(i as int + 1)),
                        ));
                    }
                }
                let ghost fout = out@;
                let r = JsonValue::Object(out);
                proof {
                    assert(mapped.skip(0) =~= mapped);
                    assert(r@ == JVal::Obj(sort_fields(mapped)));
                    assert(canon(self@) == JVal::Obj(sort_fields(mapped)));
                }
                r
            },
            other => other.deep_clone(),
        }
    }
}

/// Canonical form: object keys sorted recursively; array order and scalars kept.
pub open spec fn canon(v: JVal) -> JVal
    decreases v,
{
    match v {
        JVal::Arr(items) => JVal::Arr(canon_arr(items)),
        JVal::Obj(fields) => JVal::Obj(sort_fields(canon_fields(fields))),
        _ => v,
    }
}

/// Element-wise canonicalization of array items.
pub open spec fn canon_arr(items: Seq<JVal>) -> Seq<JVal>
    decreases items,
{
    Seq::new(
        items.len(),
        |i: int|
            if 0 <= i < items.len() {
                canon(items[i])
            } else {
                JVal::Null
            },
    )
}

/// Value-wise canonicalization of object fields, keys kept in place.
pub open spec fn canon_fields(fields: Seq<(Seq<char>, JVal)>) -> Seq<(Seq<char>, JVal)>
    decreases fields,
{
    Seq::new(
        fields.len(),
        |i: int|
            if 0 <= i < fields.len() {
                (fields[i].0, canon(fields[i].1))
            } else {
                (Seq::empty(), JVal::Null)
            },
    )
}

/// Strict lexicographic sortedness of field keys.
pub open spec fn keys_sorted(fs: Seq<(Seq<char>, JVal)>) -> bool {
    forall|i: int, j: int| 0 <= i < j < fs.len() ==> lex_lt((#[trigger] fs[i]).0, (#[trigger] fs[j]).0)
}

/// No two fields share a key.
pub open spec fn keys_unique(fs: Seq<(Seq<char>, JVal)>) -> bool {
    forall|i: int, j: int| 0 <= i < j < fs.len() ==> (#[trigger] fs[i]).0 != (#[trigger] fs[j]).0
}

/// Identity on characters; routing two characters through it lets their
/// equality follow from the equality of their code points.
spec fn chr_id(c: char) -> char {
    c
}

proof fn lemma_lex_irreflexive(a: Seq<char>)
    ensures
        !lex_lt(a, a),
    decreases a.len(),
{
    if a.len() > 0 {
        lemma_lex_irreflexive(a.drop_first());
    }
}

proof fn lemma_lex_transitive(a: Seq<char>, b: Seq<char>, c: Seq<char>)
    requires
        lex_lt(a, b),
        lex_lt(b, c),
    ensures
        lex_lt(a, c),
    decreases a.len(),
{
    if c.len() == 0 {
    } else if a.len() == 0 {
    } else if b.len() == 0 {
    } else if (a[0] as u32) < (c[0] as u32) {
    } else if a[0] == c[0] {
        if (a[0] as u32) < (b[0] as u32) {
            if (b[0] as u32) < (c[0] as u32) {
            } else {
                assert(b[0] == c[0]);
            }
        } else {
            assert(a[0] == b[0]);
            if (b[0] as u32) < (c[0] as u32) {
            } else {
                assert(b[0] == c[0]);
                lemma_lex_transitive(a.drop_first(), b.drop_first(), c.drop_first());
            }
        }
    } else {
        if (a[0] as u32) < (b[0] as u32) {
            if (b[0] as u32) < (c[0] as u32) {
            } else {
                assert(b[0] == c[0]);
            }
        } else {
            assert(a[0] == b[0]);
            if (b[0] as u32) < (c[0] as u32) {
            } else {
                assert(b[0] == c[0]);
            }
        }
    }
}

proof fn lemma_lex_connected(a: Seq<char>, b: Seq<char>)
    requires
        !lex_lt(a, b),
    ensures
        a == b || lex_lt(b, a),
    decreases a.len(),
{
    if a.len() == 0 {
        assert(b.len() == 0);
        assert(a =~= b);
    } else if b.len() == 0 {
    } else {
        reveal_with_fuel(lex_lt, 2);
        assert(!((a[0] as u32) < (b[0] as u32))) by {
            reveal_with_fuel(lex_lt, 2);
            if (a[0] as u32) < (b[0] as u32) {
                assert(lex_lt(a, b));
            }
        }
        if (b[0] as u32) < (a[0] as u32) {
            assert(lex_lt(b, a));
        } else {
            assert(chr_id(a[0]) as u32 == chr_id(b[0]) as u32);
            assert(chr_id(a[0]) == chr_id(b[0]));
            assert(a[0] == b[0]);
            assert(!lex_lt(a.drop_first(), b.drop_first()));
            lemma_lex_connected(a.drop_first(), b.drop_first());
            if a.drop_first() == b.drop_first() {
                assert(forall|i: int|
                    1 <= i < a.len() ==> #[trigger] a[i] == a.drop_first()[i - 1]);
                assert(forall|i: int|
                    1 <= i < b.len() ==> #[trigger] b[i] == b.drop_first()[i - 1]);
                assert(a =~= b);
            } else {
                assert(lex_lt(b, a));
            }
        }
    }
}

proof fn lemma_insert_field_len(f: (Seq<char>, JVal), s: Seq<(Seq<char>, JVal)>)
    ensures
        insert_field_sorted(f, s).len() == s.len() + 1,
    decreases s.len(),
{
    if s.len() > 0 && lex_lt(s[0].0, f.0) {
        lemma_insert_field_len(f, s.drop_first());
    }
}

/// What a lookup finds after a sorted insert: the new field under its key,
/// everything else untouched, provided the key is fresh.
proof fn lemma_insert_field_get(f: (Seq<char>, JVal), s: Seq<(Seq<char>, JVal)>, k: Seq<char>)
    requires
        obj_get(s, f.0) is None,
    ensures
        obj_get(insert_field_sorted(f, s), k) == if k == f.0 {
            Some(f.1)
        } else {
            obj_get(s, k)
        },
    decreases s.len(),
{
    if s.len() == 0 {
        let r = insert_field_sorted(f, s);
        assert(r =~= seq![f]);
        assert(r[0] == f);
        assert(r.drop_first() =~= Seq::<(Seq<char>, JVal)>::empty());
        assert(obj_get(r.drop_first(), k) is None);
        if k == f.0 {
            assert(obj_get(r, k) == Some(f.1));
        } else {
            assert(obj_get(r, k) is None);
        }
    } else if lex_lt(s[0].0, f.0) {
        let r = insert_field_sorted(f, s);
        assert(r == seq![s[0]] + insert_field_sorted(f, s.drop_first()));
        assert(r[0] == s[0]);
        assert(r.drop_first() =~= insert_field_sorted(f, s.drop_first()));
        lemma_lex_irreflexive(f.0);
        assert(s[0].0 != f.0);
        lemma_insert_field_get(f, s.drop_first(), k);
        if k == s[0].0 {
            assert(k != f.0);
            assert(obj_get(r, k) == Some(s[0].1));
            assert(obj_get(s, k) == Some(s[0].1));
        } else {
            assert(obj_get(r, k) == obj_get(insert_field_sorted(f, s.drop_first()), k));
            assert(obj_get(s, k) == obj_get(s.drop_first(), k));
        }
    } else {
        let r = insert_field_sorted(f, s);
        assert(r == seq![f] + s);
        assert(r[0] == f);
        assert(r.drop_first() =~= s);
        if k == f.0 {
            assert(obj_get(r, k) == Some(f.1));
        } else {
            assert(obj_get(r, k) == obj_get(s, k));
        }
    }
}

proof fn lemma_insert_field_sorted_keeps(f: (Seq<char>, JVal), s: Seq<(Seq<char>, JVal)>)
    requires
        keys_sorted(s),
        obj_get(s, f.0) is None,
    ensures
        keys_sorted(insert_field_sorted(f, s)),
    decreases s.len(),
{
    if s.len() == 0 {
        assert(insert_field_sorted(f, s) =~= seq![f]);
    } else if lex_lt(s[0].0, f.0) {
        let rest = insert_field_sorted(f, s.drop_first());
        let r = seq![s[0]] + rest;
        assert(keys_sorted(s.drop_first())) by {
            assert(forall|i: int, j: int|
                0 <= i < j < s.drop_first().len() ==> lex_lt(
                    (#[trigger] s.drop_first()[i]).0,
                    (#[trigger] s.drop_first()[j]).0,
                ));
        }
        assert(obj_get(s, f.0) is None);
        assert(s.drop_first() =~= s.drop_first());
        lemma_insert_field_sorted_keeps(f, s.drop_first());
        lemma_insert_field_len(f, s.drop_first());
        // every key in the inserted tail is either a tail key or f's key,
        // and both sit above s[0]'s key
        assert forall|i: int, j: int| 0 <= i < j < r.len() implies lex_lt(
            (#[trigger] r[i]).0,
            (#[trigger] r[j]).0,
        ) by {
            if i == 0 {
                assert(r[j] == rest[j - 1]);
                lemma_insert_member(f, s.drop_first(), j - 1);
                if rest[j - 1] == f {
                } else {
                    let ghost t = choose|t: int|
                        0 <= t < s.drop_first().len() && s.drop_first()[t] == rest[j - 1];
                    assert(s[t + 1] == rest[j - 1]);
                    assert(lex_lt(s[0].0, s[t + 1].0));
                }
            } else {
                assert(r[i] == rest[i - 1]);
                assert(r[j] == rest[j - 1]);
            }
        }
    } else {
        let r = seq![f] + s;
        assert(s[0].0 != f.0) by {
            if s[0].0 == f.0 {
                assert(obj_get(s, f.0) is Some);
            }
        }
        lemma_lex_connected(s[0].0, f.0);
        assert(lex_lt(f.0, s[0].0));

        assert forall|i: int, j: int| 0 <= i < j < r.len() implies lex_lt(
            (#[trigger] r[i]).0,
            (#[trigger] r[j]).0,
        ) by {
            if i == 0 {
                assert(r[j] == s[j - 1]);
                if j == 1 {
                } else {
                    assert(lex_lt(s[0].0, s[j - 1].0));
                    lemma_lex_transitive(f.0, s[0].0, s[j - 1].0);
                }
            } else {
                assert(r[i] == s[i - 1]);
                assert(r[j] == s[j - 1]);
            }
        }
    }
}

/// Every element of a sorted insert is the new field or one of the old ones.
proof fn lemma_insert_member(f: (Seq<char>, JVal), s: Seq<(Seq<char>, JVal)>, j: int)
    requires
        0 <= j < insert_field_sorted(f, s).len(),
    ensures
        insert_field_sorted(f, s)[j] == f || exists|t: int|
            0 <= t < s.len() && s[t] == insert_field_sorted(f, s)[j],
    decreases s.len(),
{
    if s.len() == 0 {
        assert(insert_field_sorted(f, s) =~= seq![f]);
    } else if lex_lt(s[0].0, f.0) {
        let r = seq![s[0]] + insert_field_sorted(f, s.drop_first());
        if j == 0 {
            assert(r[0] == s[0]);
        } else {
            assert(r[j] == insert_field_sorted(f, s.drop_first())[j - 1]);
            lemma_insert_member(f, s.drop_first(), j - 1);
            if insert_field_sorted(f, s.drop_first())[j - 1] == f {
            } else {
                let ghost t = choose|t: int|
                    0 <= t < s.drop_first().len() && s.drop_first()[t] == insert_field_sorted(
                        f,
                        s.drop_first(),
                    )[j - 1];
                assert(s[t + 1] == r[j]);
            }
        }
    } else {
        let r = seq![f] + s;
        if j > 0 {
            assert(r[j] == s[j - 1]);
        }
    }
}

/// A lookup in canonical-sorted fields finds the canonicalized value.
proof fn lemma_sort_canon_get(fs: Seq<(Seq<char>, JVal)>, k: Seq<char>)
    requires
        keys_unique(fs),
    ensures
        obj_get(sort_fields(canon_fields(fs)), k) == (match obj_get(fs, k) {
            Some(v) => Some(canon(v)),
            None => None::<JVal>,
        }),
        keys_sorted(sort_fields(canon_fields(fs))),
        sort_fields(canon_fields(fs)).len() == fs.len(),
    decreases fs.len(),
{
    if fs.len() == 0 {
        assert(canon_fields(fs) =~= Seq::<(Seq<char>, JVal)>::empty());
    } else {
        let cf = canon_fields(fs);
        let rest = fs.drop_first();
        assert(canon_fields(rest) =~= cf.drop_first());
        assert(keys_unique(rest)) by {
            assert(forall|i: int, j: int|
                0 <= i < j < rest.len() ==> (#[trigger] rest[i]).0 != (#[trigger] rest[j]).0);
        }
        lemma_sort_canon_get(rest, k);
        lemma_sort_canon_get(rest, fs[0].0);
        assert(obj_get(rest, fs[0].0) is None) by {
            lemma_obj_get_absent(rest, fs[0].0, fs);
        }
        assert(sort_fields(cf) == insert_field_sorted(cf[0], sort_fields(cf.drop_first())));
        assert(cf[0] == (fs[0].0, canon(fs[0].1)));
        lemma_insert_field_get(cf[0], sort_fields(canon_fields(rest)), k);
        lemma_insert_field_sorted_keeps(cf[0], sort_fields(canon_fields(rest)));
        lemma_insert_field_len(cf[0], sort_fields(canon_fields(rest)));
    }
}

/// A key absent from the tail of a unique-keyed list.
proof fn lemma_obj_get_absent(rest: Seq<(Seq<char>, JVal)>, k: Seq<char>, whole: Seq<(Seq<char>, JVal)>)
    requires
        keys_unique(whole),
        whole.len() == rest.len() + 1,
        rest =~= whole.drop_first(),
        whole[0].0 == k,
    ensures
        obj_get(rest, k) is None,
    decreases rest.len(),
{
    if rest.len() == 0 {
    } else {
        assert(rest[0] == whole[1]);
        assert(whole[1].0 != k);
        let sub = whole.drop_first();
        assert(keys_unique(sub)) by {
            assert(forall|i: int, j: int|
                0 <= i < j < sub.len() ==> (#[trigger] sub[i]).0 != (#[trigger] sub[j]).0);
        }
        lemma_obj_get_absent(rest.drop_first(), k, seq![whole[0]] + rest.drop_first());
    }
}

/// Two strictly key-sorted field lists that look up the same everywhere and
/// have the same length are the same list.
proof fn lemma_sorted_maps_equal(a: Seq<(Seq<char>, JVal)>, b: Seq<(Seq<char>, JVal)>)
    requires
        keys_sorted(a),
        keys_sorted(b),
        a.len() == b.len(),
        forall|k: Seq<char>| #[trigger] obj_get(a, k) == obj_get(b, k),
    ensures
        a == b,
    decreases a.len(),
{
    if a.len() == 0 {
        assert(a =~= b);
    } else {
        // the head key of each list is its minimum, and the maps agree
        assert(obj_get(a, a[0].0) == Some(a[0].1));
        assert(obj_get(b, b[0].0) == Some(b[0].1));
        lemma_obj_get_found_index(b, a[0].0);
        lemma_obj_get_found_index(a, b[0].0);
        let ghost jb = choose|j: int| 0 <= j < b.len() && b[j].0 == a[0].0;
        let ghost ja = choose|j: int| 0 <= j < a.len() && a[j].0 == b[0].0;
        if jb > 0 {
            assert(lex_lt(b[0].0, b[jb].0));
            if ja > 0 {
                assert(lex_lt(a[0].0, a[ja].0));
                lemma_lex_transitive(a[0].0, b[0].0, b[jb].0);
                lemma_lex_irreflexive(a[0].0);
            } else {
                assert(a[0].0 == b[0].0);
                lemma_lex_irreflexive(b[jb].0);
            }
        }
        assert(b[0].0 == a[0].0);
        assert(obj_get(b, a[0].0) == Some(b[0].1));
        assert(obj_get(a, a[0].0) == obj_get(b, a[0].0));
        assert(a[0] == b[0]);
        let at = a.drop_first();
        let bt = b.drop_first();
        assert(keys_sorted(at) && keys_sorted(bt)) by {
            assert(forall|i: int, j: int|
                0 <= i < j < at.len() ==> lex_lt((#[trigger] at[i]).0, (#[trigger] at[j]).0));
            assert(forall|i: int, j: int|
                0 <= i < j < bt.len() ==> lex_lt((#[trigger] bt[i]).0, (#[trigger] bt[j]).0));
        }
        assert forall|k: Seq<char>| #[trigger] obj_get(at, k) == obj_get(bt, k) by {
            if k == a[0].0 {
                lemma_sorted_head_absent(a, k);
                lemma_sorted_head_absent(b, k);
            } else {
                assert(obj_get(a, k) == obj_get(at, k));
                assert(obj_get(b, k) == obj_get(bt, k));
            }
        }
        lemma_sorted_maps_equal(at, bt);
        assert(forall|i: int| 1 <= i < a.len() ==> #[trigger] a[i] == at[i - 1]);
        assert(forall|i: int| 1 <= i < b.len() ==> #[trigger] b[i] == bt[i - 1]);
        assert(a =~= b);
    }
}

/// A lookup that succeeds names an index holding the key.
proof fn lemma_obj_get_found_index(s: Seq<(Seq<char>, JVal)>, k: Seq<char>)
    requires
        obj_get(s, k) is Some,
    ensures
        exists|j: int| 0 <= j < s.len() && (#[trigger] s[j]).0 == k,
    decreases s.len(),
{
    if s.len() > 0 && s[0].0 != k {
        lemma_obj_get_found_index(s.drop_first(), k);
        let ghost j = choose|j: int| 0 <= j < s.drop_first().len() && (#[trigger] s.drop_first()[j]).0 == k;
        assert(s[j + 1].0 == k);
    }
}

/// The head key of a strictly sorted list does not recur in its tail.
proof fn lemma_sorted_head_absent(s: Seq<(Seq<char>, JVal)>, k: Seq<char>)
    requires
        keys_sorted(s),
        s.len() > 0,
        s[0].0 == k,
    ensures
        obj_get(s.drop_first(), k) is None,
{
    let t = s.drop_first();
    if obj_get(t, k) is Some {
        lemma_obj_get_found_index(t, k);
        let ghost j = choose|j: int| 0 <= j < t.len() && (#[trigger] t[j]).0 == k;
        assert(t[j] == s[j + 1]);
        assert(lex_lt(s[0].0, s[j + 1].0));
        lemma_lex_irreflexive(k);
    }
}

/// Law: canonicalizing two objects that hold the same fields — the same
/// keys, each bound to the same value — gives the same object, whatever
/// order the fields came in. Keys must be unique on both sides.
pub proof fn lemma_canon_obj_key_order_irrelevant(
    a: Seq<(Seq<char>, JVal)>,
    b: Seq<(Seq<char>, JVal)>,
)
    requires
        keys_unique(a),
        keys_unique(b),
        a.len() == b.len(),
        forall|k: Seq<char>| #[trigger] obj_get(a, k) == obj_get(b, k),
    ensures
        canon(JVal::Obj(a)) == canon(JVal::Obj(b)),
{
    let ca = sort_fields(canon_fields(a));
    let cb = sort_fields(canon_fields(b));
    assert forall|k: Seq<char>| #[trigger] obj_get(ca, k) == obj_get(cb, k) by {
        lemma_sort_canon_get(a, k);
        lemma_sort_canon_get(b, k);
    }
    lemma_sort_canon_get(a, Seq::empty());
    lemma_sort_canon_get(b, Seq::empty());
    lemma_sorted_maps_equal(ca, cb);
}

/// Equality up to object key order, recursively: scalars must agree,
/// arrays agree position by position, and two unique-keyed objects must
/// bind the same keys to values again equal up to key order.
pub open spec fn perm_eq(a: JVal, b: JVal) -> bool
    decreases a, 1int,
{
    match (a, b) {
        (JVal::Arr(xs), JVal::Arr(ys)) => xs.len() == ys.len() && perm_eq_items(xs, ys),
        (JVal::Obj(fa), JVal::Obj(fb)) => {
            &&& keys_unique(fa)
            &&& keys_unique(fb)
            &&& fa.len() == fb.len()
            &&& (forall|i: int|
                0 <= i < fa.len() ==> exists|j: int|
                    0 <= j < fb.len() && (#[trigger] fa[i]).0 == fb[j].0 && perm_eq(
                        fa[i].1,
                        fb[j].1,
                    ))
            &&& (forall|j: int|
                0 <= j < fb.len() ==> exists|i: int|
                    0 <= i < fa.len() && (#[trigger] fb[j]).0 == fa[i].0)
        },
        _ => a == b,
    }
}

/// Position-by-position equality up to key order.
pub open spec fn perm_eq_items(xs: Seq<JVal>, ys: Seq<JVal>) -> bool
    decreases xs, 0int,
{
    if xs.len() == 0 {
        true
    } else {
        ys.len() > 0 && perm_eq(xs[0], ys[0]) && perm_eq_items(xs.drop_first(), ys.drop_first())
    }
}

proof fn lemma_perm_eq_items_pointwise(xs: Seq<JVal>, ys: Seq<JVal>)
    requires
        xs.len() == ys.len(),
    ensures
        perm_eq_items(xs, ys) <==> (forall|i: int|
            0 <= i < xs.len() ==> perm_eq(#[trigger] xs[i], ys[i])),
    decreases xs.len(),
{
    if xs.len() > 0 {
        lemma_perm_eq_items_pointwise(xs.drop_first(), ys.drop_first());
        assert(forall|i: int| 1 <= i < xs.len() ==> xs.drop_first()[i - 1] == #[trigger] xs[i]);
        assert(forall|i: int| 1 <= i < ys.len() ==> ys.drop_first()[i - 1] == #[trigger] ys[i]);
    }
}

/// A unique-keyed field list looks its own entries up.
proof fn lemma_obj_get_at(fs: Seq<(Seq<char>, JVal)>, i: int)
    requires
        keys_unique(fs),
        0 <= i < fs.len(),
    ensures
        obj_get(fs, fs[i].0) == Some(fs[i].1),
    decreases i,
{
    if i == 0 {
    } else {
        assert(fs[0].0 != fs[i].0);
        assert(keys_unique(fs.drop_first())) by {
            assert(forall|x: int, y: int|
                0 <= x < y < fs.drop_first().len() ==> (#[trigger] fs.drop_first()[x]).0 != (
                #[trigger] fs.drop_first()[y]).0);
        }
        assert(fs.drop_first()[i - 1] == fs[i]);
        lemma_obj_get_at(fs.drop_first(), i - 1);
    }
}

/// Law: canonicalizing two values equal up to object key order — at every
/// level — gives the very same value, so their encodings and digests agree.
#[verifier::rlimit(100)]
pub proof fn lemma_canon_perm_eq(a: JVal, b: JVal)
    requires
        perm_eq(a, b),
    ensures
        canon(a) == canon(b),
    decreases a,
{
    match (a, b) {
        (JVal::Arr(xs), JVal::Arr(ys)) => {
            lemma_perm_eq_items_pointwise(xs, ys);
            assert forall|i: int| 0 <= i < xs.len() implies canon(#[trigger] xs[i]) == canon(
                ys[i],
            ) by {
                assert(perm_eq(xs[i], ys[i]));
                lemma_canon_perm_eq(xs[i], ys[i]);
            }
            assert(canon_arr(xs) =~= canon_arr(ys));
        },
        (JVal::Obj(fa), JVal::Obj(fb)) => {
            let ca = sort_fields(canon_fields(fa));
            let cb = sort_fields(canon_fields(fb));
            assert forall|k: Seq<char>| #[trigger] obj_get(ca, k) == obj_get(cb, k) by {
                lemma_sort_canon_get(fa, k);
                lemma_sort_canon_get(fb, k);
                match obj_get(fa, k) {
                    Some(va) => {
                        lemma_obj_get_found_index(fa, k);
                        let i = choose|i: int| 0 <= i < fa.len() && (#[trigger] fa[i]).0 == k;
                        lemma_obj_get_at(fa, i);
                        assert(va == fa[i].1);
                        let j = choose|j: int|
                            0 <= j < fb.len() && (#[trigger] fa[i]).0 == fb[j].0 && perm_eq(
                                fa[i].1,
                                fb[j].1,
                            );
                        lemma_obj_get_at(fb, j);
                        assert(obj_get(fb, k) == Some(fb[j].1));
                        lemma_canon_perm_eq(fa[i].1, fb[j].1);
                    },
                    None => {
                        if obj_get(fb, k) is Some {
                            lemma_obj_get_found_index(fb, k);
                            let j = choose|j: int|
                                0 <= j < fb.len() && (#[trigger] fb[j]).0 == k;
                            let i = choose|i: int|
                                0 <= i < fa.len() && (#[trigger] fb[j]).0 == fa[i].0;
                            lemma_obj_get_at(fa, i);
                            assert(obj_get(fa, k) is Some);
                        }
                    },
                }
            }
            lemma_sort_canon_get(fa, Seq::empty());
            lemma_sort_canon_get(fb, Seq::empty());
            lemma_sorted_maps_equal(ca, cb);
        },
        _ => {},
    }
}

} // verus!
