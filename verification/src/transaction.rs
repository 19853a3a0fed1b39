//! Transaction data extracted from a receipt, and its JSON form.
//!
//! Amounts are kept as the text of the JSON number that holds them.

use vstd::prelude::*;
use crate::json::{
    Json, JsonValue, distinct_keys, find_key, lemma_obj_get_at, jv, jv_entries, jv_list, lemma_jv_entries, lemma_jv_entries_ext,
    lemma_jv_list, lemma_jv_list_ext, lemma_key_index, obj_get,
};

verus! {

/// One line of a transaction.
#[derive(Debug)]
pub struct TransactionItem {
    pub description: Option<String>,
    pub quantity: Option<String>,
    pub amount: Option<String>,
}

/// A transaction as a plain-text accounting journal needs it.
#[derive(Debug)]
pub struct Transaction {
    pub payee: Option<String>,
    pub datetime: Option<String>,
    pub category: Option<String>,
    pub items: Option<Vec<TransactionItem>>,
    pub total: Option<String>,
    pub currency: Option<String>,
    pub invoice_number: Option<String>,
    pub payment_type: Option<String>,
    pub payment_identifier: Option<String>,
}

/// The view of an optional string.
pub open spec fn ostr(o: Option<String>) -> Option<Seq<char>> {
    match o {
        Some(s) => Some(s@),
        None => None,
    }
}

/// The mathematical view of a transaction line.
pub struct ItemView {
    pub description: Option<Seq<char>>,
    pub quantity: Option<Seq<char>>,
    pub amount: Option<Seq<char>>,
}

/// The mathematical view of a transaction.
pub struct TransactionView {
    pub payee: Option<Seq<char>>,
    pub datetime: Option<Seq<char>>,
    pub category: Option<Seq<char>>,
    pub items: Option<Seq<ItemView>>,
    pub total: Option<Seq<char>>,
    pub currency: Option<Seq<char>>,
    pub invoice_number: Option<Seq<char>>,
    pub payment_type: Option<Seq<char>>,
    pub payment_identifier: Option<Seq<char>>,
}

pub open spec fn item_view(i: TransactionItem) -> ItemView {
    ItemView { description: ostr(i.description), quantity: ostr(i.quantity), amount: ostr(i.amount) }
}

pub open spec fn items_view(v: Seq<TransactionItem>) -> Seq<ItemView> {
    v.map_values(|i: TransactionItem| item_view(i))
}

pub open spec fn transaction_view(t: Transaction) -> TransactionView {
    TransactionView {
        payee: ostr(t.payee),
        datetime: ostr(t.datetime),
        category: ostr(t.category),
        items: match t.items {
            Some(v) => Some(items_view(v@)),
            None => None,
        },
        total: ostr(t.total),
        currency: ostr(t.currency),
        invoice_number: ostr(t.invoice_number),
        payment_type: ostr(t.payment_type),
        payment_identifier: ostr(t.payment_identifier),
    }
}

/// JSON of an optional string: the string, or null.
pub open spec fn text_json(o: Option<Seq<char>>) -> Json {
    match o {
        Some(s) => Json::Str(s),
        None => Json::Null,
    }
}

/// JSON of an optional amount: the number, or null.
pub open spec fn number_json(o: Option<Seq<char>>) -> Json {
    match o {
        Some(s) => Json::Number(s),
        None => Json::Null,
    }
}

/// JSON of a transaction line; keys in sorted order.
pub open spec fn item_json(i: ItemView) -> Json {
    Json::Object(
        seq![
            ("amount"@, number_json(i.amount)),
            ("description"@, text_json(i.description)),
            ("quantity"@, number_json(i.quantity)),
        ],
    )
}

pub open spec fn items_json(v: Seq<ItemView>) -> Seq<Json> {
    v.map_values(|i: ItemView| item_json(i))
}

/// JSON of a transaction; keys in sorted order.
pub open spec fn transaction_json(t: TransactionView) -> Json {
    Json::Object(
        seq![
            ("category"@, text_json(t.category)),
            ("currency"@, text_json(t.currency)),
            ("datetime"@, text_json(t.datetime)),
            ("invoice_number"@, text_json(t.invoice_number)),
            (
                "items"@,
                match t.items {
                    Some(v) => Json::Array(items_json(v)),
                    None => Json::Null,
                },
            ),
            ("payee"@, text_json(t.payee)),
            ("payment_identifier"@, text_json(t.payment_identifier)),
            ("payment_type"@, text_json(t.payment_type)),
            ("total"@, number_json(t.total)),
        ],
    )
}

/// An optional string read from a field: a missing field or null gives
/// none; anything but a string is refused.
pub open spec fn read_text(f: Option<Json>) -> Option<Option<Seq<char>>> {
    match f {
        None => Some(None),
        Some(Json::Null) => Some(None),
        Some(Json::Str(s)) => Some(Some(s)),
        _ => None,
    }
}

/// An optional amount read from a field: a missing field or null gives
/// none; anything but a number is refused.
pub open spec fn read_number(f: Option<Json>) -> Option<Option<Seq<char>>> {
    match f {
        None => Some(None),
        Some(Json::Null) => Some(None),
        Some(Json::Number(s)) => Some(Some(s)),
        _ => None,
    }
}

/// A transaction line read from JSON, if the JSON is a valid one.
pub open spec fn item_from_json(j: Json) -> Option<ItemView> {
    match j {
        Json::Object(o) => {
            let d = read_text(obj_get(o, "description"@));
            let q = read_number(obj_get(o, "quantity"@));
            let a = read_number(obj_get(o, "amount"@));
            if d is Some && q is Some && a is Some {
                Some(ItemView { description: d.unwrap(), quantity: q.unwrap(), amount: a.unwrap() })
            } else {
                None
            }
        },
        _ => None,
    }
}

/// All lines read from JSON, if every one is valid.
pub open spec fn items_from_json(a: Seq<Json>) -> Option<Seq<ItemView>>
    decreases a.len(),
{
    if a.len() == 0 {
        Some(seq![])
    } else {
        match (items_from_json(a.drop_last()), item_from_json(a.last())) {
            (Some(v), Some(i)) => Some(v.push(i)),
            _ => None,
        }
    }
}

/// The optional lines field.
pub open spec fn read_items(f: Option<Json>) -> Option<Option<Seq<ItemView>>> {
    match f {
        None => Some(None),
        Some(Json::Null) => Some(None),
        Some(Json::Array(a)) => match items_from_json(a) {
            Some(v) => Some(Some(v)),
            None => None,
        },
        _ => None,
    }
}

/// A transaction read from JSON, if the JSON is a valid one.
pub open spec fn transaction_from_json(j: Json) -> Option<TransactionView> {
    match j {
        Json::Object(o) => {
            let payee = read_text(obj_get(o, "payee"@));
            let datetime = read_text(obj_get(o, "datetime"@));
            let category = read_text(obj_get(o, "category"@));
            let items = read_items(obj_get(o, "items"@));
            let total = read_number(obj_get(o, "total"@));
            let currency = read_text(obj_get(o, "currency"@));
            let invoice_number = read_text(obj_get(o, "invoice_number"@));
            let payment_type = read_text(obj_get(o, "payment_type"@));
            let payment_identifier = read_text(obj_get(o, "payment_identifier"@));
            if payee is Some && datetime is Some && category is Some && items is Some && total is Some
                && currency is Some && invoice_number is Some && payment_type is Some
                && payment_identifier is Some {
                Some(
                    TransactionView {
                        payee: payee.unwrap(),
                        datetime: datetime.unwrap(),
                        category: category.unwrap(),
                        items: items.unwrap(),
                        total: total.unwrap(),
                        currency: currency.unwrap(),
                        invoice_number: invoice_number.unwrap(),
                        payment_type: payment_type.unwrap(),
                        payment_identifier: payment_identifier.unwrap(),
                    },
                )
            } else {
                None
            }
        },
        _ => None,
    }
}

fn clone_opt(o: &Option<String>) -> (r: Option<String>)
    ensures
        ostr(r) == ostr(*o),
{
    match o {
        Some(s) => Some(s.clone()),
        None => None,
    }
}

fn text_to_json(o: &Option<String>) -> (r: JsonValue)
    ensures
        jv(r) == text_json(ostr(*o)),
{
    match o {
        Some(s) => JsonValue::String(s.clone()),
        None => JsonValue::Null,
    }
}

fn number_to_json(o: &Option<String>) -> (r: JsonValue)
    ensures
        jv(r) == number_json(ostr(*o)),
{
    match o {
        Some(s) => JsonValue::Number(s.clone()),
        None => JsonValue::Null,
    }
}

/// The value of `k` in an object, if present.
pub fn get_field<'a>(o: &'a Vec<(String, JsonValue)>, k: &str) -> (r: Option<&'a JsonValue>)
    ensures
        match r {
            Some(v) => obj_get(jv_entries(o@), k@) == Some(jv(*v)),
            None => obj_get(jv_entries(o@), k@) is None,
        },
{
    proof {
        lemma_jv_entries(o@);
        lemma_key_index(jv_entries(o@), k@);
    }
    match find_key(o, k) {
        Some(i) => Some(&o[i].1),
        None => None,
    }
}

/// An optional string read from a field.
pub fn read_text_field(f: Option<&JsonValue>) -> (r: Result<Option<String>, ()>)
    ensures
        match r {
            Ok(o) => read_text(opt_jv(f)) == Some(ostr(o)),
            Err(_) => read_text(opt_jv(f)) is None,
        },
{
    match f {
        None => Ok(None),
        Some(JsonValue::Null) => Ok(None),
        Some(JsonValue::String(s)) => Ok(Some(s.clone())),
        Some(_) => Err(()),
    }
}

/// An optional amount read from a field.
pub fn read_number_field(f: Option<&JsonValue>) -> (r: Result<Option<String>, ()>)
    ensures
        match r {
            Ok(o) => read_number(opt_jv(f)) == Some(ostr(o)),
            Err(_) => read_number(opt_jv(f)) is None,
        },
{
    match f {
        None => Ok(None),
        Some(JsonValue::Null) => Ok(None),
        Some(JsonValue::Number(s)) => Ok(Some(s.clone())),
        Some(_) => Err(()),
    }
}

/// The view of an optional borrowed value.
pub open spec fn opt_jv(f: Option<&JsonValue>) -> Option<Json> {
    match f {
        Some(v) => Some(jv(*v)),
        None => None,
    }
}

impl TransactionItem {
    /// The JSON form of the line.
    pub fn to_json(&self) -> (r: JsonValue)
        ensures
            jv(r) == item_json(item_view(*self)),
    {
        let mut o: Vec<(String, JsonValue)> = Vec::new();
        o.push(("amount".to_owned(), number_to_json(&self.amount)));
        o.push(("description".to_owned(), text_to_json(&self.description)));
        o.push(("quantity".to_owned(), number_to_json(&self.quantity)));
        proof {
            let target = seq![
                ("amount"@, number_json(ostr(self.amount))),
                ("description"@, text_json(ostr(self.description))),
                ("quantity"@, number_json(ostr(self.quantity))),
            ];
            lemma_jv_entries_ext(o@, target);
        }
        JsonValue::Object(o)
    }

    /// A line read from JSON.
    pub fn from_json(j: &JsonValue) -> (r: Result<TransactionItem, ()>)
        ensures
            match r {
                Ok(i) => item_from_json(jv(*j)) == Some(item_view(i)),
                Err(_) => item_from_json(jv(*j)) is None,
            },
    {
        match j {
            JsonValue::Object(o) => {
                let d = read_text_field(get_field(o, "description"));
                let q = read_number_field(get_field(o, "quantity"));
                let a = read_number_field(get_field(o, "amount"));
                match (d, q, a) {
                    (Ok(description), Ok(quantity), Ok(amount)) => Ok(
                        TransactionItem { description, quantity, amount },
                    ),
                    _ => Err(()),
                }
            },
            _ => Err(()),
        }
    }
}

fn items_to_json(v: &Vec<TransactionItem>) -> (r: JsonValue)
    ensures
        jv(r) == Json::Array(items_json(items_view(v@))),
{
    let mut out: Vec<JsonValue> = Vec::new();
    let n = v.len();
    let mut i: usize = 0;
    while i < n
        invariant
            n == v@.len(),
            i <= n,
            out@.len() == i,
            forall|j: int| 0 <= j < i ==> jv(#[trigger] out@[j]) == item_json(item_view(v@[j])),
        decreases n - i,
    {
        let x = v[i].to_json();
        out.push(x);
        i += 1;
    }
    proof {
        lemma_jv_list_ext(out@, items_json(items_view(v@)));
    }
    JsonValue::Array(out)
}

proof fn lemma_items_prefix_refused(a: Seq<Json>, k: int)
    requires
        0 <= k <= a.len(),
        items_from_json(a.take(k)) is None,
    ensures
        items_from_json(a) is None,
    decreases a.len() - k,
{
    if k == a.len() {
        assert(a.take(k) =~= a);
    } else {
        assert(a.drop_last().take(k) =~= a.take(k));
        lemma_items_prefix_refused(a.drop_last(), k);
    }
}

fn items_from(a: &Vec<JsonValue>) -> (r: Result<Vec<TransactionItem>, ()>)
    ensures
        match r {
            Ok(v) => items_from_json(jv_list(a@)) == Some(items_view(v@)),
            Err(_) => items_from_json(jv_list(a@)) is None,
        },
{
    proof {
        lemma_jv_list(a@);
    }
    let n = a.len();
    let mut out: Vec<TransactionItem> = Vec::new();
    let mut i: usize = 0;
    assert(jv_list(a@).take(0) =~= Seq::<Json>::empty());
    while i < n
        invariant
            n == a@.len(),
            i <= n,
            jv_list(a@).len() == n,
            forall|j: int| 0 <= j < n ==> #[trigger] jv_list(a@)[j] == jv(a@[j]),
            items_from_json(jv_list(a@).take(i as int)) == Some(items_view(out@)),
        decreases n - i,
    {
        let ghost pre = jv_list(a@).take(i as int);
        assert(jv_list(a@).take(i + 1).drop_last() =~= pre);
        assert(jv_list(a@).take(i + 1).last() == jv(a@[i as int]));
        match TransactionItem::from_json(&a[i]) {
            Ok(item) => {
                let ghost before = out@;
                out.push(item);
                assert(items_view(out@) =~= items_view(before).push(item_view(item)));
            },
            Err(_) => {
                proof {
                    lemma_items_prefix_refused(jv_list(a@), i + 1);
                }
                return Err(());
            },
        }
        i += 1;
    }
    assert(jv_list(a@).take(n as int) =~= jv_list(a@));
    Ok(out)
}

impl Transaction {
    /// The JSON form of the transaction.
    pub fn to_json(&self) -> (r: JsonValue)
        ensures
            jv(r) == transaction_json(transaction_view(*self)),
    {
        let items = match &self.items {
            Some(v) => items_to_json(v),
            None => JsonValue::Null,
        };
        let mut o: Vec<(String, JsonValue)> = Vec::new();
        o.push(("category".to_owned(), text_to_json(&self.category)));
        o.push(("currency".to_owned(), text_to_json(&self.currency)));
        o.push(("datetime".to_owned(), text_to_json(&self.datetime)));
        o.push(("invoice_number".to_owned(), text_to_json(&self.invoice_number)));
        o.push(("items".to_owned(), items));
        o.push(("payee".to_owned(), text_to_json(&self.payee)));
        o.push(("payment_identifier".to_owned(), text_to_json(&self.payment_identifier)));
        o.push(("payment_type".to_owned(), text_to_json(&self.payment_type)));
        o.push(("total".to_owned(), number_to_json(&self.total)));
        proof {
            let t = transaction_view(*self);
            match transaction_json(t) {
                Json::Object(target) => {
                    lemma_jv_entries_ext(o@, target);
                },
                _ => {},
            }
        }
        JsonValue::Object(o)
    }

    /// A transaction read from JSON.
    pub fn from_json(j: &JsonValue) -> (r: Result<Transaction, ()>)
        ensures
            match r {
                Ok(t) => transaction_from_json(jv(*j)) == Some(transaction_view(t)),
                Err(_) => transaction_from_json(jv(*j)) is None,
            },
    {
        match j {
            JsonValue::Object(o) => {
                let payee = read_text_field(get_field(o, "payee"));
                let datetime = read_text_field(get_field(o, "datetime"));
                let category = read_text_field(get_field(o, "category"));
                let items_field = get_field(o, "items");
                let items: Result<Option<Vec<TransactionItem>>, ()> = match items_field {
                    None => Ok(None),
                    Some(JsonValue::Null) => Ok(None),
                    Some(JsonValue::Array(a)) => match items_from(a) {
                        Ok(v) => Ok(Some(v)),
                        Err(_) => Err(()),
                    },
                    Some(_) => Err(()),
                };
                assert(items matches Ok(Some(v)) ==> read_items(opt_jv(items_field)) == Some(
                    Some(items_view(v@)),
                ));
                let total = read_number_field(get_field(o, "total"));
                let currency = read_text_field(get_field(o, "currency"));
                let invoice_number = read_text_field(get_field(o, "invoice_number"));
                let payment_type = read_text_field(get_field(o, "payment_type"));
                let payment_identifier = read_text_field(get_field(o, "payment_identifier"));
                match (
                    payee,
                    datetime,
                    category,
                    items,
                    total,
                    currency,
                    invoice_number,
                    payment_type,
                    payment_identifier,
                ) {
                    (
                        Ok(payee),
                        Ok(datetime),
                        Ok(category),
                        Ok(items),
                        Ok(total),
                        Ok(currency),
                        Ok(invoice_number),
                        Ok(payment_type),
                        Ok(payment_identifier),
                    ) => Ok(
                        Transaction {
                            payee,
                            datetime,
                            category,
                            items,
                            total,
                            currency,
                            invoice_number,
                            payment_type,
                            payment_identifier,
                        },
                    ),
                    _ => Err(()),
                }
            },
            _ => Err(()),
        }
    }

    /// A transaction with the same content.
    pub fn duplicate(&self) -> (r: Transaction)
        ensures
            transaction_view(r) == transaction_view(*self),
    {
        let items = match &self.items {
            Some(v) => {
                let mut out: Vec<TransactionItem> = Vec::new();
                let n = v.len();
                let mut i: usize = 0;
                while i < n
                    invariant
                        n == v@.len(),
                        i <= n,
                        items_view(out@) == items_view(v@).take(i as int),
                    decreases n - i,
                {
                    let x = &v[i];
                    let ghost before = out@;
                    out.push(
                        TransactionItem {
                            description: clone_opt(&x.description),
                            quantity: clone_opt(&x.quantity),
                            amount: clone_opt(&x.amount),
                        },
                    );
                    assert(items_view(out@) =~= items_view(before).push(item_view(out@.last())));
                    assert(item_view(out@.last()) == item_view(v@[i as int]));
                    assert(items_view(v@).take(i + 1) =~= items_view(v@).take(i as int).push(
                        item_view(v@[i as int]),
                    ));
                    assert(items_view(out@) =~= items_view(v@).take(i + 1));
                    i += 1;
                }
                assert(items_view(v@).take(n as int) =~= items_view(v@));
                Some(out)
            },
            None => None,
        };
        Transaction {
            payee: clone_opt(&self.payee),
            datetime: clone_opt(&self.datetime),
            category: clone_opt(&self.category),
            items,
            total: clone_opt(&self.total),
            currency: clone_opt(&self.currency),
            invoice_number: clone_opt(&self.invoice_number),
            payment_type: clone_opt(&self.payment_type),
            payment_identifier: clone_opt(&self.payment_identifier),
        }
    }
}


proof fn lemma_item_round_trip(i: ItemView)
    ensures
        item_from_json(item_json(i)) == Some(i),
{
    reveal_strlit("amount");
    reveal_strlit("description");
    reveal_strlit("quantity");
    let o = seq![
        ("amount"@, number_json(i.amount)),
        ("description"@, text_json(i.description)),
        ("quantity"@, number_json(i.quantity)),
    ];
    assert(o[0].0[0] == 'a' && o[1].0[0] == 'd' && o[2].0[0] == 'q');
    assert(distinct_keys(o)) by {
        assert forall|a: int, b: int| 0 <= a < b < o.len() implies (#[trigger] o[a]).0 != (
        #[trigger] o[b]).0 by {
            assert(o[a].0[0] != o[b].0[0]);
        }
    }
    lemma_obj_get_at(o, 0);
    lemma_obj_get_at(o, 1);
    lemma_obj_get_at(o, 2);
}

proof fn lemma_items_round_trip(v: Seq<ItemView>)
    ensures
        items_from_json(items_json(v)) == Some(v),
    decreases v.len(),
{
    if v.len() > 0 {
        lemma_items_round_trip(v.drop_last());
        lemma_item_round_trip(v.last());
        assert(items_json(v).drop_last() =~= items_json(v.drop_last()));
        assert(items_json(v).last() == item_json(v.last()));
        assert(v.drop_last().push(v.last()) =~= v);
    } else {
        assert(items_json(v) =~= Seq::<Json>::empty());
    }
}

/// Writing a transaction as JSON and reading it back gives it again.
pub proof fn law_transaction_round_trip(t: TransactionView)
    ensures
        transaction_from_json(transaction_json(t)) == Some(t),
{
    reveal_strlit("category");
    reveal_strlit("currency");
    reveal_strlit("datetime");
    reveal_strlit("invoice_number");
    reveal_strlit("items");
    reveal_strlit("payee");
    reveal_strlit("payment_identifier");
    reveal_strlit("payment_type");
    reveal_strlit("total");
    let o = match transaction_json(t) {
        Json::Object(o) => o,
        _ => seq![],
    };
    assert(o.len() == 9);
    assert(o[0].0.len() == 8 && o[0].0[0] == 'c' && o[0].0[1] == 'a');
    assert(o[1].0.len() == 8 && o[1].0[0] == 'c' && o[1].0[1] == 'u');
    assert(o[2].0.len() == 8 && o[2].0[0] == 'd' && o[2].0[1] == 'a');
    assert(o[3].0.len() == 14 && o[3].0[0] == 'i' && o[3].0[1] == 'n');
    assert(o[4].0.len() == 5 && o[4].0[0] == 'i' && o[4].0[1] == 't');
    assert(o[5].0.len() == 5 && o[5].0[0] == 'p' && o[5].0[1] == 'a');
    assert(o[6].0.len() == 18 && o[6].0[0] == 'p' && o[6].0[1] == 'a');
    assert(o[7].0.len() == 12 && o[7].0[0] == 'p' && o[7].0[1] == 'a');
    assert(o[8].0.len() == 5 && o[8].0[0] == 't' && o[8].0[1] == 'o');
    assert(distinct_keys(o)) by {
        assert forall|a: int, b: int| 0 <= a < b < o.len() implies (#[trigger] o[a]).0 != (
        #[trigger] o[b]).0 by {
            assert(o[a].0.len() != o[b].0.len() || o[a].0[0] != o[b].0[0] || o[a].0[1]
                != o[b].0[1]);
        }
    }
    lemma_obj_get_at(o, 0);
    lemma_obj_get_at(o, 1);
    lemma_obj_get_at(o, 2);
    lemma_obj_get_at(o, 3);
    lemma_obj_get_at(o, 4);
    lemma_obj_get_at(o, 5);
    lemma_obj_get_at(o, 6);
    lemma_obj_get_at(o, 7);
    lemma_obj_get_at(o, 8);
    match t.items {
        Some(v) => lemma_items_round_trip(v),
        None => {},
    }
}

} // verus!
