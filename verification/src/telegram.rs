//! The check of the signed login data that a Telegram client hands over: the
//! fields are tabulated by name, written out line by line, and authenticated
//! with a key derived from the bot's token.

use hmac::Mac;
use vstd::prelude::*;
use vstd::utf8::encode_utf8;

verus! {

/// The user as the login data describes them.
#[derive(Debug)]
pub struct TelegramUser {
    pub id: u64,
    pub username: Option<String>,
    pub first_name: String,
    pub photo_url: Option<String>,
}

/// The login data once its signature has been checked.
#[derive(Debug)]
pub struct TelegramInitData {
    pub user: TelegramUser,
}

impl TelegramUser {
    /// The name under which the user is known: the username, or the first
    /// name where there is none.
    pub fn display_name(&self) -> (name: String)
        ensures
            name@ == (match self.username {
                Some(username) => username@,
                None => self.first_name@,
            }),
    {
        match &self.username {
            Some(username) => username.clone(),
            None => self.first_name.clone(),
        }
    }
}

/// A field of the login data: its name and its value.
pub type Field = (Seq<char>, Seq<char>);

/// The fields that `url::form_urlencoded::parse` reads from a query string.
pub uninterp spec fn spec_query_pairs(query: Seq<char>) -> Seq<Field>;

/// The HMAC-SHA256 tag of `message` under `key`.
pub uninterp spec fn spec_hmac_sha256(key: Seq<u8>, message: Seq<u8>) -> Seq<u8>;

/// The values of a list of fields, in order.
pub open spec fn fields_view(fields: Seq<(String, String)>) -> Seq<Field> {
    Seq::new(fields.len(), |i: int| (fields[i].0@, fields[i].1@))
}

/// `url::form_urlencoded::parse` on the bytes of `query`, its pairs taken as
/// owned strings with `into_owned` and collected in the order in which the
/// parser yields them.
///
/// The parser splits at `&` and at the first `=`, turns `+` into a space,
/// undoes percent-encoding and replaces invalid UTF-8. The pairs are a
/// function of the query alone; the contract gives them a name and claims
/// nothing more of them.
#[verifier::external_body]
pub(crate) fn query_pairs(query: &str) -> (pairs: Vec<(String, String)>)
    ensures
        fields_view(pairs@) == spec_query_pairs(query@),
{
    url::form_urlencoded::parse(query.as_bytes()).into_owned().collect()
}

/// HMAC-SHA256 as the crates `hmac` and `sha2` compute it: `new_from_slice`
/// with the key, `update` with the message, `finalize` and `into_bytes`.
///
/// `new_from_slice` takes a key of any length for this type, so a tag always
/// comes back. The tag is a function of key and message alone; the contract
/// gives it a name and claims nothing more of it.
#[verifier::external_body]
pub(crate) fn hmac_sha256(key: &[u8], message: &[u8]) -> (tag: Vec<u8>)
    ensures
        tag@ == spec_hmac_sha256(key@, message@),
{
    match hmac::Hmac::<sha2::Sha256>::new_from_slice(key) {
        Ok(mut mac) => {
            mac.update(message);
            mac.finalize().into_bytes().to_vec()
        },
        Err(_) => Vec::new(),
    }
}

/// The sixteen hexadecimal digits, lower case.
pub open spec fn hex_digits() -> Seq<char> {
    seq!['0', '1', '2', '3', '4', '5', '6', '7', '8', '9', 'a', 'b', 'c', 'd', 'e', 'f']
}

/// `bytes` written as lower-case hexadecimal text, two digits to the byte.
pub open spec fn hex_lower(bytes: Seq<u8>) -> Seq<char> {
    Seq::new(
        2 * bytes.len(),
        |i: int|
            if i % 2 == 0 {
                hex_digits()[bytes[i / 2] as int / 16]
            } else {
                hex_digits()[bytes[i / 2] as int % 16]
            },
    )
}

/// `hex::encode`: every byte as two lower-case hexadecimal digits, the high
/// half first.
#[verifier::external_body]
pub(crate) fn hex_encode(bytes: &[u8]) -> (text: String)
    ensures
        text@ == hex_lower(bytes@),
{
    hex::encode(bytes)
}

/// The order of texts: by the first character in which they differ, a text
/// before every longer text that begins with it.
pub open spec fn text_before(a: Seq<char>, b: Seq<char>) -> bool
    decreases a.len(),
{
    if b.len() == 0 {
        false
    } else if a.len() == 0 {
        true
    } else if a[0] != b[0] {
        (a[0] as int) < (b[0] as int)
    } else {
        text_before(a.drop_first(), b.drop_first())
    }
}

/// `<` on `str` of the standard library, which orders strings
/// lexicographically by their bytes and thereby by their code points.
#[verifier::external_body]
pub(crate) fn comes_before(a: &str, b: &str) -> (before: bool)
    ensures
        before == text_before(a@, b@),
{
    a < b
}

/// No text comes before itself.
pub proof fn lemma_text_order_irreflexive(a: Seq<char>)
    ensures
        !text_before(a, a),
    decreases a.len(),
{
    if a.len() > 0 {
        lemma_text_order_irreflexive(a.drop_first());
    }
}

/// Of two texts at most one comes before the other.
pub proof fn lemma_text_order_asymmetric(a: Seq<char>, b: Seq<char>)
    ensures
        !(text_before(a, b) && text_before(b, a)),
    decreases a.len(),
{
    if a.len() > 0 && b.len() > 0 && a[0] == b[0] {
        lemma_text_order_asymmetric(a.drop_first(), b.drop_first());
    }
}

/// Of two different texts one comes before the other.
pub proof fn lemma_text_order_total(a: Seq<char>, b: Seq<char>)
    requires
        a != b,
    ensures
        text_before(a, b) || text_before(b, a),
    decreases a.len(),
{
    if a.len() == 0 || b.len() == 0 {
        if a.len() == 0 && b.len() == 0 {
            assert(a =~= b);
        }
    } else if a[0] == b[0] {
        if a.drop_first() == b.drop_first() {
            assert(a =~= seq![a[0]] + a.drop_first());
            assert(b =~= seq![b[0]] + b.drop_first());
        }
        lemma_text_order_total(a.drop_first(), b.drop_first());
    } else {
        assert(a[0] as int != b[0] as int);
    }
}

/// The order of texts is transitive.
pub proof fn lemma_text_order_transitive(a: Seq<char>, b: Seq<char>, c: Seq<char>)
    requires
        text_before(a, b),
        text_before(b, c),
    ensures
        text_before(a, c),
    decreases a.len(),
{
    if a.len() > 0 && b.len() > 0 && c.len() > 0 {
        if a[0] == b[0] && b[0] == c[0] {
            lemma_text_order_transitive(a.drop_first(), b.drop_first(), c.drop_first());
        }
    }
}

/// The value that `fields` give for `name`: that of the last field of the
/// name, or none.
pub open spec fn lookup(fields: Seq<Field>, name: Seq<char>) -> Option<Seq<char>>
    decreases fields.len(),
{
    if fields.len() == 0 {
        None
    } else if fields.last().0 == name {
        Some(fields.last().1)
    } else {
        lookup(fields.drop_last(), name)
    }
}

/// The name of the field that carries the signature.
pub open spec fn hash_name() -> Seq<char> {
    "hash"@
}

/// The name of the field that carries the user.
pub open spec fn user_name() -> Seq<char> {
    "user"@
}

/// True when `fields` hold a field called `name`.
pub open spec fn has_field(fields: Seq<Field>, name: Seq<char>) -> bool {
    exists|k: int| 0 <= k < fields.len() && (#[trigger] fields[k]).0 == name
}

/// True when the names of `table` ascend strictly in the order of texts.
pub open spec fn names_ascend(table: Seq<Field>) -> bool {
    forall|i: int, j: int|
        0 <= i < j < table.len() ==> text_before((#[trigger] table[i]).0, (#[trigger] table[j]).0)
}

/// True when `table` lists, by ascending name, the value that `fields` give
/// for every name but that of the signature.
pub open spec fn tabulates(table: Seq<Field>, fields: Seq<Field>) -> bool {
    &&& names_ascend(table)
    &&& forall|name: Seq<char>| #[trigger]
        lookup(table, name) == if name == hash_name() {
            None
        } else {
            lookup(fields, name)
        }
}

/// The signature that `fields` carry: the value of their last field named
/// "hash", or the empty text.
pub open spec fn signature_of(fields: Seq<Field>) -> Seq<char> {
    match lookup(fields, hash_name()) {
        Some(value) => value,
        None => Seq::empty(),
    }
}

/// One line of the text that is signed: the name, an equals sign, the value.
pub open spec fn line_of(field: Field) -> Seq<char> {
    field.0 + seq!['='] + field.1
}

/// The text that is signed: the lines of `table`, with a line feed between
/// one and the next.
pub open spec fn check_string(table: Seq<Field>) -> Seq<char>
    decreases table.len(),
{
    if table.len() == 0 {
        Seq::empty()
    } else if table.len() == 1 {
        line_of(table[0])
    } else {
        check_string(table.drop_last()) + seq!['\n'] + line_of(table.last())
    }
}

/// The signature that the login data should carry under the bot's token:
/// the tag of the signed text under the tag of the token under "WebAppData",
/// in hexadecimal.
pub open spec fn expected_signature(table: Seq<Field>, bot_token: Seq<char>) -> Seq<char> {
    let secret = spec_hmac_sha256(encode_utf8("WebAppData"@), encode_utf8(bot_token));
    hex_lower(spec_hmac_sha256(secret, encode_utf8(check_string(table))))
}

/// What the check comes to, given the signature `computed` for the data: the
/// text of the user where the data carry that signature and name a user, and
/// a refusal otherwise.
pub open spec fn verdict(table: Seq<Field>, signature: Seq<char>, computed: Seq<char>) -> Result<
    Seq<char>,
    (),
> {
    if computed == signature {
        match lookup(table, user_name()) {
            Some(user) => Ok(user),
            None => Err(()),
        }
    } else {
        Err(())
    }
}

/// What the check of login data with the given fields comes to under the
/// bot's token, `table` being the fields tabulated.
pub open spec fn login_verdict(
    table: Seq<Field>,
    fields: Seq<Field>,
    bot_token: Seq<char>,
) -> Result<Seq<char>, ()> {
    verdict(table, signature_of(fields), expected_signature(table, bot_token))
}

/// In a table whose names ascend, a name is looked up to the value of the
/// one field that has it.
pub proof fn lemma_lookup_in_table(table: Seq<Field>, name: Seq<char>)
    requires
        names_ascend(table),
    ensures
        forall|i: int| 0 <= i < table.len() && (#[trigger] table[i]).0 == name ==> lookup(table, name)
            == Some(table[i].1),
        (forall|i: int| 0 <= i < table.len() ==> (#[trigger] table[i]).0 != name) ==> lookup(
            table,
            name,
        ) is None,
    decreases table.len(),
{
    if table.len() > 0 {
        let rest = table.drop_last();
        assert(names_ascend(rest)) by {
            assert forall|i: int, j: int| 0 <= i < j < rest.len() implies text_before(
                (#[trigger] rest[i]).0,
                (#[trigger] rest[j]).0,
            ) by {
                assert(text_before(table[i].0, table[j].0));
            }
        }
        lemma_lookup_in_table(rest, name);
        assert forall|i: int| 0 <= i < table.len() && (#[trigger] table[i]).0 == name implies lookup(
            table,
            name,
        ) == Some(table[i].1) by {
            if i < table.len() - 1 {
                assert(rest[i] == table[i]);
                assert(text_before(table[i].0, table[table.len() - 1].0));
                lemma_text_order_irreflexive(name);
            }
        }
        if forall|i: int| 0 <= i < table.len() ==> (#[trigger] table[i]).0 != name {
            assert(table[table.len() - 1].0 != name);
            assert forall|i: int| 0 <= i < rest.len() implies (#[trigger] rest[i]).0 != name by {
                assert(rest[i] == table[i]);
            }
        }
    }
}

/// A table without its last field still ascends, and gives for every name
/// but that of the last field what the whole table gives.
proof fn lemma_table_without_last(table: Seq<Field>)
    requires
        names_ascend(table),
        table.len() > 0,
    ensures
        names_ascend(table.drop_last()),
        lookup(table.drop_last(), table.last().0) is None,
        forall|name: Seq<char>|
            name != table.last().0 ==> #[trigger] lookup(table.drop_last(), name) == lookup(
                table,
                name,
            ),
{
    let rest = table.drop_last();
    assert(names_ascend(rest)) by {
        assert forall|i: int, j: int| 0 <= i < j < rest.len() implies text_before(
            (#[trigger] rest[i]).0,
            (#[trigger] rest[j]).0,
        ) by {
            assert(text_before(table[i].0, table[j].0));
        }
    }
    lemma_lookup_in_table(rest, table.last().0);
    assert forall|i: int| 0 <= i < rest.len() implies (#[trigger] rest[i]).0 != table.last().0 by {
        assert(text_before(table[i].0, table[table.len() - 1].0));
        lemma_text_order_irreflexive(table.last().0);
    }
}

/// One list of fields has one table.
pub proof fn lemma_table_unique(first: Seq<Field>, second: Seq<Field>)
    requires
        names_ascend(first),
        names_ascend(second),
        forall|name: Seq<char>| #[trigger] lookup(first, name) == lookup(second, name),
    ensures
        first == second,
    decreases first.len(),
{
    if first.len() == 0 {
        if second.len() > 0 {
            lemma_lookup_in_table(second, second[0].0);
            assert(lookup(second, second[0].0) is Some);
            assert(lookup(first, second[0].0) is None);
        }
        assert(first =~= second);
    } else {
        let last = first.last();
        lemma_lookup_in_table(first, last.0);
        assert(first[first.len() - 1].0 == last.0);
        assert(lookup(first, last.0) == Some(last.1));
        assert(lookup(second, last.0) == Some(last.1));
        lemma_lookup_in_table(second, last.0);
        assert(second.len() > 0);
        let j = choose|j: int| 0 <= j < second.len() && (#[trigger] second[j]).0 == last.0;
        assert(second[j].1 == last.1);
        if j < second.len() - 1 {
            // a later name of the second table would have to lie in the first
            let later = second.last();
            assert(text_before(second[j].0, second[second.len() - 1].0));
            lemma_lookup_in_table(second, later.0);
            assert(second[second.len() - 1].0 == later.0);
            assert(lookup(first, later.0) is Some);
            lemma_lookup_in_table(first, later.0);
            let i = choose|i: int| 0 <= i < first.len() && (#[trigger] first[i]).0 == later.0;
            if i < first.len() - 1 {
                assert(text_before(first[i].0, first[first.len() - 1].0));
            }
            lemma_text_order_asymmetric(last.0, later.0);
            lemma_text_order_irreflexive(last.0);
        }
        assert(second.last() == last);
        lemma_table_without_last(first);
        lemma_table_without_last(second);
        assert forall|name: Seq<char>| #[trigger]
            lookup(first.drop_last(), name) == lookup(second.drop_last(), name) by {
            if name != last.0 {
                assert(lookup(first.drop_last(), name) == lookup(first, name));
                assert(lookup(second.drop_last(), name) == lookup(second, name));
            }
        }
        lemma_table_unique(first.drop_last(), second.drop_last());
        assert(first =~= first.drop_last().push(last));
        assert(second =~= second.drop_last().push(last));
    }
}

/// Enters `name` with `value` in a table whose names ascend: the value of a
/// field of that name is replaced, and a new field goes to its place in the
/// order.
pub fn enter_field(table: &mut Vec<(String, String)>, name: String, value: String)
    requires
        names_ascend(fields_view(old(table)@)),
    ensures
        names_ascend(fields_view(final(table)@)),
        forall|other: Seq<char>| #[trigger]
            lookup(fields_view(final(table)@), other) == if other == name@ {
                Some(value@)
            } else {
                lookup(fields_view(old(table)@), other)
            },
{
    let ghost before = fields_view(table@);
    let mut i: usize = 0;
    while i < table.len() && comes_before(table[i].0.as_str(), name.as_str())
        invariant
            i <= table@.len(),
            table@ == old(table)@,
            before == fields_view(table@),
            forall|j: int| 0 <= j < i ==> text_before((#[trigger] before[j]).0, name@),
        decreases table@.len() - i,
    {
        assert(before[i as int].0 == table@[i as int].0@);
        i = i + 1;
    }
    if i < table.len() && table[i].0 == name {
        let old_field = table.remove(i);
        table.insert(i, (old_field.0, value));
        proof {
            let after = fields_view(table@);
            assert(after =~= before.update(i as int, (name@, value@)));
            assert(names_ascend(after)) by {
                assert forall|a: int, b: int| 0 <= a < b < after.len() implies text_before(
                    (#[trigger] after[a]).0,
                    (#[trigger] after[b]).0,
                ) by {
                    assert(text_before(before[a].0, before[b].0));
                }
            }
            assert forall|other: Seq<char>| #[trigger]
                lookup(after, other) == if other == name@ {
                    Some(value@)
                } else {
                    lookup(before, other)
                } by {
                lemma_lookup_in_table(after, other);
                lemma_lookup_in_table(before, other);
                if other == name@ {
                    assert(after[i as int].0 == other);
                } else if has_field(before, other) {
                    let k = choose|k: int|
                        0 <= k < before.len() && (#[trigger] before[k]).0 == other;
                    assert(after[k] == before[k]);
                } else {
                    assert forall|k: int| 0 <= k < after.len() implies (#[trigger] after[k]).0
                        != other by {
                        assert(before[k].0 != other);
                    }
                }
            }
        }
    } else {
        proof {
            if i < table@.len() {
                assert(before[i as int].0 == table@[i as int].0@);
                lemma_text_order_total(before[i as int].0, name@);
            }
        }
        table.insert(i, (name, value));
        proof {
            let after = fields_view(table@);
            assert(after =~= before.insert(i as int, (name@, value@)));
            assert(names_ascend(after)) by {
                assert forall|a: int, b: int| 0 <= a < b < after.len() implies text_before(
                    (#[trigger] after[a]).0,
                    (#[trigger] after[b]).0,
                ) by {
                    if b < i {
                        assert(text_before(before[a].0, before[b].0));
                    } else if b == i {
                        assert(text_before(before[a].0, name@));
                    } else if a == i {
                        assert(text_before(name@, before[i as int].0));
                        if b - 1 > i {
                            assert(text_before(before[i as int].0, before[b - 1].0));
                            lemma_text_order_transitive(name@, before[i as int].0, before[b - 1].0);
                        }
                    } else if a < i {
                        assert(text_before(before[a].0, before[b - 1].0));
                    } else {
                        assert(text_before(before[a - 1].0, before[b - 1].0));
                    }
                }
            }
            assert forall|other: Seq<char>| #[trigger]
                lookup(after, other) == if other == name@ {
                    Some(value@)
                } else {
                    lookup(before, other)
                } by {
                lemma_lookup_in_table(after, other);
                lemma_lookup_in_table(before, other);
                if other == name@ {
                    assert(after[i as int].0 == other);
                } else if has_field(before, other) {
                    let k = choose|k: int|
                        0 <= k < before.len() && (#[trigger] before[k]).0 == other;
                    let k2 = if k < i { k } else { k + 1 };
                    assert(after[k2] == before[k]);
                } else {
                    assert forall|k: int| 0 <= k < after.len() implies (#[trigger] after[k]).0
                        != other by {
                        if k < i {
                            assert(before[k].0 != other);
                        } else if k > i {
                            assert(before[k - 1].0 != other);
                        }
                    }
                }
            }
        }
    }
}

/// Tabulates the fields of the login data by name, leaving out the signature,
/// which is returned beside the table.
pub fn tabulate(fields: &Vec<(String, String)>) -> (sorted: (Vec<(String, String)>, String))
    ensures
        tabulates(fields_view(sorted.0@), fields_view(fields@)),
        sorted.1@ == signature_of(fields_view(fields@)),
{
    let mut table: Vec<(String, String)> = Vec::new();
    let mut signature = String::new();
    let hash = "hash".to_owned();
    let ghost all = fields_view(fields@);
    let mut i: usize = 0;
    proof {
        assert(all.take(0) =~= Seq::<Field>::empty());
        assert(fields_view(table@) =~= Seq::<Field>::empty());
    }
    while i < fields.len()
        invariant
            i <= fields@.len(),
            all == fields_view(fields@),
            hash@ == hash_name(),
            tabulates(fields_view(table@), all.take(i as int)),
            signature@ == signature_of(all.take(i as int)),
        decreases fields@.len() - i,
    {
        proof {
            let next = all.take(i + 1);
            assert(next.drop_last() =~= all.take(i as int));
            assert(next.last() == all[i as int]);
        }
        let name = fields[i].0.clone();
        let value = fields[i].1.clone();
        if name == hash {
            signature = value;
        } else {
            enter_field(&mut table, name, value);
        }
        i = i + 1;
    }
    proof {
        assert(all.take(fields@.len() as int) =~= all);
    }
    (table, signature)
}

/// Writes the table out as the text that is signed: a line for every field,
/// with a line feed between one line and the next.
pub fn write_check_string(table: &Vec<(String, String)>) -> (text: String)
    ensures
        text@ == check_string(fields_view(table@)),
{
    let mut text = String::new();
    let ghost all = fields_view(table@);
    let mut i: usize = 0;
    proof {
        assert(all.take(0) =~= Seq::<Field>::empty());
    }
    while i < table.len()
        invariant
            i <= table@.len(),
            all == fields_view(table@),
            text@ == check_string(all.take(i as int)),
        decreases table@.len() - i,
    {
        proof {
            let next = all.take(i + 1);
            assert(next.drop_last() =~= all.take(i as int));
            assert(next.last() == all[i as int]);
            reveal_strlit("\n");
            reveal_strlit("=");
            assert("\n"@ =~= seq!['\n']);
            assert("="@ =~= seq!['=']);
        }
        let ghost before = text@;
        if i > 0 {
            text.append("\n");
        }
        text.append(table[i].0.as_str());
        text.append("=");
        text.append(table[i].1.as_str());
        proof {
            let line = line_of(all[i as int]);
            if i > 0 {
                assert(text@ =~= before + seq!['\n'] + line);
            } else {
                assert(before =~= Seq::<char>::empty());
                assert(text@ =~= line);
                assert(all.take(1) =~= seq![all[0]]);
            }
        }
        i = i + 1;
    }
    proof {
        assert(all.take(table@.len() as int) =~= all);
    }
    text
}

/// The value that the table gives for `name`.
pub fn find_field(table: &Vec<(String, String)>, name: &str) -> (value: Option<String>)
    requires
        names_ascend(fields_view(table@)),
    ensures
        match value {
            Some(text) => lookup(fields_view(table@), name@) == Some(text@),
            None => lookup(fields_view(table@), name@) is None,
        },
{
    let wanted = name.to_owned();
    let ghost all = fields_view(table@);
    let mut i: usize = 0;
    while i < table.len()
        invariant
            i <= table@.len(),
            all == fields_view(table@),
            names_ascend(all),
            wanted@ == name@,
            forall|j: int| 0 <= j < i ==> (#[trigger] all[j]).0 != name@,
        decreases table@.len() - i,
    {
        if table[i].0 == wanted {
            proof {
                lemma_lookup_in_table(all, name@);
                assert(all[i as int].0 == name@);
            }
            return Some(table[i].1.clone());
        }
        i = i + 1;
    }
    proof {
        lemma_lookup_in_table(all, name@);
    }
    None
}

/// Decides the check, given the table of the login data, the signature the
/// data carry and the signature computed for them: the text of the user
/// where the two signatures agree and the table names a user, a refusal
/// otherwise.
pub fn settle(table: &Vec<(String, String)>, signature: &String, computed: &String) -> (outcome:
    Result<String, ()>)
    requires
        names_ascend(fields_view(table@)),
    ensures
        match outcome {
            Ok(user) => verdict(fields_view(table@), signature@, computed@) == Ok::<Seq<char>, ()>(
                user@,
            ),
            Err(_) => verdict(fields_view(table@), signature@, computed@) is Err,
        },
{
    if *computed == *signature {
        match find_field(table, "user") {
            Some(user) => Ok(user),
            None => Err(()),
        }
    } else {
        Err(())
    }
}

/// Checks the login data `init_data` against the bot's token and returns the
/// text that describes the user.
///
/// The data are read as a query string. Their fields, but for the one named
/// "hash", are tabulated by name and written out line by line; the text is
/// authenticated with HMAC-SHA256 under the tag of the token under
/// "WebAppData". The data are accepted when the field "hash" carries that
/// tag in hexadecimal and a field "user" is among them.
pub fn verify_telegram_auth(init_data: &str, bot_token: &str) -> (outcome: Result<String, ()>)
    ensures
        exists|table: Seq<Field>| #[trigger] tabulates(table, spec_query_pairs(init_data@)),
        forall|table: Seq<Field>| #[trigger]
            tabulates(table, spec_query_pairs(init_data@)) ==> match outcome {
                Ok(user) => login_verdict(table, spec_query_pairs(init_data@), bot_token@) == Ok::<
                    Seq<char>,
                    (),
                >(user@),
                Err(_) => login_verdict(table, spec_query_pairs(init_data@), bot_token@) is Err,
            },
{
    let fields = query_pairs(init_data);
    let (table, signature) = tabulate(&fields);
    let text = write_check_string(&table);
    let secret = hmac_sha256("WebAppData".as_bytes(), bot_token.as_bytes());
    let tag = hmac_sha256(secret.as_slice(), text.as_str().as_bytes());
    let computed = hex_encode(tag.as_slice());
    let outcome = settle(&table, &signature, &computed);
    proof {
        let own = fields_view(table@);
        assert(tabulates(own, spec_query_pairs(init_data@)));
        assert forall|other: Seq<Field>| #[trigger]
            tabulates(other, spec_query_pairs(init_data@)) implies other == own by {
            assert forall|name: Seq<char>| #[trigger] lookup(other, name) == lookup(own, name) by {}
            lemma_table_unique(other, own);
        }
    }
    outcome
}

} // verus!
