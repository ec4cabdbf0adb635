//! Service ids, display names and file names.

use vstd::prelude::*;
use crate::model::{CustomService, ServiceRef};
use crate::text;
use crate::ports;

verus! {

/// The provider and name of a service id `provider:name`, split at its first
/// `:`; both parts must be non-empty.
pub open spec fn spec_parse_service_id(id: Seq<char>) -> Option<(Seq<char>, Seq<char>)> {
    match text::split_once(id, seq![':']) {
        Some((provider, name)) => if provider.len() > 0 && name.len() > 0 {
            Some((provider, name))
        } else {
            None
        },
        None => None,
    }
}

/// The message for a service id that does not name a provider and a service.
pub open spec fn invalid_service_id_message(id: Seq<char>) -> Seq<char> {
    "Invalid service id: "@ + id
}

/// Splits a service id `provider:name` at its first `:`.
pub fn parse_service_id(service: &str) -> (r: Result<ServiceRef, String>)
    ensures
        match r {
            Ok(sr) => spec_parse_service_id(service@) == Some((sr.provider@, sr.name@)),
            Err(e) => spec_parse_service_id(service@).is_none() && e@ == invalid_service_id_message(
                service@,
            ),
        },
{
    let chars = text::chars_of(service);
    let colon = [':'];
    assert(colon@ =~= seq![':']);
    match text::split_once_chars(chars.as_slice(), &colon) {
        Some((provider, name)) => {
            if provider.len() > 0 && name.len() > 0 {
                return Ok(
                    ServiceRef {
                        provider: text::string_of(provider.as_slice()),
                        name: text::string_of(name.as_slice()),
                    },
                );
            }
        },
        None => {},
    }
    Err(text::concat_str("Invalid service id: ", service))
}

/// The separators between the words of a service name.
pub open spec fn title_separators() -> Seq<char> {
    seq!['-', '_', '@']
}

/// Whether `c` is an ASCII character.
pub open spec fn is_ascii_char(c: char) -> bool {
    (c as u32) < 128
}

/// The upper-case form of an ASCII character: `a` to `z` become `A` to `Z`,
/// every other character is unchanged.
pub open spec fn ascii_upper(c: char) -> char {
    if 'a' <= c && c <= 'z' {
        ((c as u32) - 32) as char
    } else {
        c
    }
}

/// The lower-case form of an ASCII character: `A` to `Z` become `a` to `z`,
/// every other character is unchanged.
pub open spec fn ascii_lower(c: char) -> char {
    if 'A' <= c && c <= 'Z' {
        ((c as u32) + 32) as char
    } else {
        c
    }
}

/// What `char::to_uppercase` yields for `c`.
pub uninterp spec fn uppercase_of(c: char) -> Seq<char>;

/// The uppercase mapping of `c`, as `char::to_uppercase` yields it: the
/// contract claims that the result is that mapping, that it is one or more
/// characters, and that for an ASCII character it is the single character of
/// the ASCII mapping (`a`..`z` to `A`..`Z`, any other character unchanged), as
/// the documentation and the Unicode case mappings give it.
#[verifier::external_body]
fn char_to_uppercase(c: char) -> (r: Vec<char>)
    ensures
        r@ == uppercase_of(c),
        r@.len() >= 1,
        is_ascii_char(c) ==> r@ == seq![ascii_upper(c)],
{
    c.to_uppercase().collect()
}

/// `word` with its first character in upper case.
pub open spec fn capitalized(word: Seq<char>) -> Seq<char> {
    if word.len() == 0 {
        word
    } else {
        uppercase_of(word[0]) + word.drop_first()
    }
}

/// The non-empty items of `parts`, in order.
pub open spec fn non_empty_parts(parts: Seq<Seq<char>>) -> Seq<Seq<char>>
    decreases parts.len(),
{
    if parts.len() == 0 {
        parts
    } else if parts.last().len() == 0 {
        non_empty_parts(parts.drop_last())
    } else {
        non_empty_parts(parts.drop_last()).push(parts.last())
    }
}

/// `parts` joined with `sep` between consecutive items.
pub open spec fn join(parts: Seq<Seq<char>>, sep: Seq<char>) -> Seq<char>
    decreases parts.len(),
{
    if parts.len() == 0 {
        Seq::<char>::empty()
    } else if parts.len() == 1 {
        parts[0]
    } else {
        join(parts.drop_last(), sep) + sep + parts.last()
    }
}

/// The display name of a service name: its words, separated in the name by
/// `-`, `_` or `@`, each with an upper-case first character, joined by spaces.
pub open spec fn spec_title_case(value: Seq<char>) -> Seq<char> {
    join(
        non_empty_parts(text::split_by(value, title_separators())).map_values(
            |w: Seq<char>| capitalized(w),
        ),
        seq![' '],
    )
}

/// `word` with its first character in upper case by the ASCII mapping.
pub open spec fn ascii_capitalized(word: Seq<char>) -> Seq<char> {
    if word.len() == 0 {
        word
    } else {
        seq![ascii_upper(word[0])] + word.drop_first()
    }
}

/// The display name of a service name made of ASCII characters: what
/// `spec_title_case` gives when each upper-case mapping is the ASCII one.
pub open spec fn ascii_title_case(value: Seq<char>) -> Seq<char> {
    join(
        non_empty_parts(text::split_by(value, title_separators())).map_values(
            |w: Seq<char>| ascii_capitalized(w),
        ),
        seq![' '],
    )
}

/// Whether every character of `s` is ASCII.
pub open spec fn is_ascii_text(s: Seq<char>) -> bool {
    forall|i: int| 0 <= i < s.len() ==> is_ascii_char(#[trigger] s[i])
}

fn capitalize_chars(word: &[char]) -> (r: Vec<char>)
    requires
        word@.len() > 0,
    ensures
        r@ == capitalized(word@),
        is_ascii_char(word@[0]) ==> r@ == ascii_capitalized(word@),
{
    let mut r = char_to_uppercase(word[0]);
    let ghost start = r@;
    let mut i: usize = 1;
    while i < word.len()
        invariant
            1 <= i <= word@.len(),
            r@ == start + word@.subrange(1, i as int),
        decreases word.len() - i,
    {
        r.push(word[i]);
        i = i + 1;
        assert(r@ =~= start + word@.subrange(1, i as int));
    }
    assert(word@.subrange(1, word@.len() as int) =~= word@.drop_first());
    r
}

/// The display name of a service name, such as `Mysql 5.7` for `mysql@5.7`.
pub fn title_case(value: &str) -> (r: String)
    ensures
        r@ == spec_title_case(value@),
        is_ascii_text(value@) ==> r@ == ascii_title_case(value@),
{
    let chars = text::chars_of(value);
    let seps = ['-', '_', '@'];
    assert(seps@ =~= title_separators());
    let parts = text::split_by_chars(chars.as_slice(), &seps);
    let ghost all = text::split_by(value@, title_separators());
    proof {
        text::lemma_split_by_piece_chars(value@, title_separators());
    }
    let mut out: Vec<char> = Vec::new();
    let mut count: usize = 0;
    let mut i: usize = 0;
    assert(all.take(0) =~= Seq::<Seq<char>>::empty());
    while i < parts.len()
        invariant
            i <= parts@.len(),
            text::char_views(parts@) == all,
            count as int == non_empty_parts(all.take(i as int)).len(),
            count <= i,
            out@ == join(
                non_empty_parts(all.take(i as int)).map_values(|w: Seq<char>| capitalized(w)),
                seq![' '],
            ),
            all == text::split_by(value@, title_separators()),
            forall|k: int, j: int|
                0 <= k < all.len() && 0 <= j < all[k].len() ==> value@.contains(#[trigger] all[k][j]),
            is_ascii_text(value@) ==> out@ == join(
                non_empty_parts(all.take(i as int)).map_values(|w: Seq<char>| ascii_capitalized(w)),
                seq![' '],
            ),
        decreases parts.len() - i,
    {
        let ghost prev = all.take(i as int);
        assert(all.take(i + 1).drop_last() =~= prev);
        assert(all.take(i + 1).last() == parts@[i as int]@);
        if parts[i].len() > 0 {
            let word = capitalize_chars(parts[i].as_slice());
            let ghost before = non_empty_parts(prev).map_values(|w: Seq<char>| capitalized(w));
            let ghost after = non_empty_parts(all.take(i + 1)).map_values(
                |w: Seq<char>| capitalized(w),
            );
            assert(after =~= before.push(word@));
            let ghost abefore = non_empty_parts(prev).map_values(|w: Seq<char>| ascii_capitalized(w));
            let ghost aafter = non_empty_parts(all.take(i + 1)).map_values(
                |w: Seq<char>| ascii_capitalized(w),
            );
            proof {
                if is_ascii_text(value@) {
                    assert(value@.contains(all[i as int][0]));
                    let j = choose|j: int| 0 <= j < value@.len() && value@[j] == all[i as int][0];
                    assert(is_ascii_char(value@[j]));
                    assert(word@ == ascii_capitalized(parts@[i as int]@));
                    assert(aafter =~= abefore.push(word@));
                }
            }
            if count > 0 {
                out.push(' ');
            }
            let ghost mid = out@;
            let mut k: usize = 0;
            while k < word.len()
                invariant
                    k <= word@.len(),
                    out@ == mid + word@.take(k as int),
                decreases word.len() - k,
            {
                out.push(word[k]);
                k = k + 1;
                assert(out@ =~= mid + word@.take(k as int));
            }
            assert(word@.take(word@.len() as int) =~= word@);
            if count == 0 {
                assert(before.len() == 0);
                assert(after.len() == 1);
                assert(out@ =~= after[0]);
                assert(abefore.len() == 0);
                assert(aafter.len() == 1);
            } else {
                assert(after.drop_last() =~= before);
                assert(out@ =~= join(before, seq![' ']) + seq![' '] + word@);
                assert(aafter.drop_last() =~= abefore);
            }
            count = count + 1;
        }
        i = i + 1;
    }
    assert(all.take(parts@.len() as int) =~= all);
    text::string_of(out.as_slice())
}

/// Whether every character of `s` satisfies `f`.
pub open spec fn all_chars(s: Seq<char>, f: spec_fn(char) -> bool) -> bool {
    forall|i: int| 0 <= i < s.len() ==> f(#[trigger] s[i])
}

proof fn lemma_title_separators(c: char)
    ensures
        title_separators().contains(c) <==> (c == '-' || c == '_' || c == '@'),
{
    let seps = title_separators();
    if c == '-' {
        assert(seps[0] == c);
    } else if c == '_' {
        assert(seps[1] == c);
    } else if c == '@' {
        assert(seps[2] == c);
    }
}

proof fn lemma_ascii_upper(c: char)
    ensures
        is_ascii_char(c) ==> is_ascii_char(ascii_upper(c)),
        ascii_upper(c) == '-' <==> c == '-',
        ascii_upper(c) == '_' <==> c == '_',
        ascii_upper(c) == '@' <==> c == '@',
        ascii_upper(ascii_upper(c)) == ascii_upper(c),
        ascii_lower(ascii_upper(c)) == ascii_lower(c),
{
}

proof fn lemma_non_empty_parts_chars(parts: Seq<Seq<char>>, f: spec_fn(char) -> bool)
    requires
        forall|k: int| 0 <= k < parts.len() ==> all_chars(#[trigger] parts[k], f),
    ensures
        forall|k: int|
            0 <= k < non_empty_parts(parts).len() ==> all_chars(
                #[trigger] non_empty_parts(parts)[k],
                f,
            ) && non_empty_parts(parts)[k].len() > 0,
    decreases parts.len(),
{
    if parts.len() > 0 {
        let t = parts.drop_last();
        assert forall|k: int| 0 <= k < t.len() implies all_chars(#[trigger] t[k], f) by {
            assert(t[k] == parts[k]);
        }
        lemma_non_empty_parts_chars(t, f);
        let l = parts[parts.len() - 1];
        assert(all_chars(l, f));
        let r = non_empty_parts(parts);
        let q = non_empty_parts(t);
        if l.len() > 0 {
            assert(r == q.push(l));
            assert forall|k: int| 0 <= k < r.len() implies all_chars(#[trigger] r[k], f) && r[k].len()
                > 0 by {
                if k < q.len() {
                    assert(r[k] == q[k]);
                }
            }
        } else {
            assert(r == q);
        }
    }
}

proof fn lemma_non_empty_parts_empty(parts: Seq<Seq<char>>)
    ensures
        non_empty_parts(parts).len() == 0 <==> forall|k: int|
            0 <= k < parts.len() ==> (#[trigger] parts[k]).len() == 0,
    decreases parts.len(),
{
    if parts.len() > 0 {
        let t = parts.drop_last();
        lemma_non_empty_parts_empty(t);
        if non_empty_parts(parts).len() == 0 {
            assert forall|k: int| 0 <= k < parts.len() implies (#[trigger] parts[k]).len() == 0 by {
                if k < t.len() {
                    assert(t[k] == parts[k]);
                }
            }
        } else {
            if forall|k: int| 0 <= k < parts.len() ==> (#[trigger] parts[k]).len() == 0 {
                assert(parts[parts.len() - 1].len() == 0);
                assert forall|k: int| 0 <= k < t.len() implies (#[trigger] t[k]).len() == 0 by {
                    assert(t[k] == parts[k]);
                }
            }
        }
    }
}

proof fn lemma_join_chars(parts: Seq<Seq<char>>, sep: Seq<char>, f: spec_fn(char) -> bool)
    requires
        forall|k: int| 0 <= k < parts.len() ==> all_chars(#[trigger] parts[k], f),
        all_chars(sep, f),
    ensures
        all_chars(join(parts, sep), f),
    decreases parts.len(),
{
    if parts.len() > 1 {
        let t = parts.drop_last();
        assert forall|k: int| 0 <= k < t.len() implies all_chars(#[trigger] t[k], f) by {
            assert(t[k] == parts[k]);
        }
        lemma_join_chars(t, sep, f);
        let a = join(t, sep);
        let l = parts[parts.len() - 1];
        assert(all_chars(l, f));
        let j = join(parts, sep);
        assert(j == a + sep + l);
        assert forall|i: int| 0 <= i < j.len() implies f(#[trigger] j[i]) by {
            if i < a.len() {
                assert(j[i] == a[i]);
            } else if i < a.len() + sep.len() {
                assert(j[i] == sep[i - a.len()]);
            } else {
                assert(j[i] == l[i - a.len() - sep.len()]);
            }
        }
    } else if parts.len() == 1 {
        assert(all_chars(parts[0], f));
    }
}

proof fn lemma_join_prefix(parts: Seq<Seq<char>>, sep: Seq<char>)
    requires
        parts.len() > 0,
    ensures
        join(parts, sep).len() >= parts[0].len(),
        forall|i: int| 0 <= i < parts[0].len() ==> join(parts, sep)[i] == #[trigger] parts[0][i],
    decreases parts.len(),
{
    if parts.len() > 1 {
        let t = parts.drop_last();
        lemma_join_prefix(t, sep);
        assert(t[0] == parts[0]);
        let a = join(t, sep);
        assert(join(parts, sep) == a + sep + parts[parts.len() - 1]);
        assert forall|i: int| 0 <= i < parts[0].len() implies join(parts, sep)[i]
            == #[trigger] parts[0][i] by {
            assert(join(parts, sep)[i] == a[i]);
        }
    }
}

/// The display name of an ASCII service name is ASCII and holds no `-`, `_`
/// or `@`.
pub proof fn lemma_ascii_title_case_chars(value: Seq<char>)
    requires
        is_ascii_text(value),
    ensures
        forall|i: int|
            0 <= i < ascii_title_case(value).len() ==> is_ascii_char(
                #[trigger] ascii_title_case(value)[i],
            ) && !title_separators().contains(ascii_title_case(value)[i]),
{
    let seps = title_separators();
    let f = |c: char| is_ascii_char(c) && !seps.contains(c);
    let pieces = text::split_by(value, seps);
    text::lemma_split_by_piece_chars(value, seps);
    assert forall|k: int| 0 <= k < pieces.len() implies all_chars(#[trigger] pieces[k], f) by {
        assert forall|i: int| 0 <= i < pieces[k].len() implies f(#[trigger] pieces[k][i]) by {
            assert(value.contains(pieces[k][i]));
            let j = choose|j: int| 0 <= j < value.len() && value[j] == pieces[k][i];
            assert(is_ascii_char(value[j]));
        }
    }
    let words = non_empty_parts(pieces);
    lemma_non_empty_parts_chars(pieces, f);
    let caps = words.map_values(|w: Seq<char>| ascii_capitalized(w));
    assert forall|k: int| 0 <= k < caps.len() implies all_chars(#[trigger] caps[k], f) by {
        let w = words[k];
        assert(all_chars(w, f));
        let c = caps[k];
        assert(c == seq![ascii_upper(w[0])] + w.drop_first());
        assert forall|i: int| 0 <= i < c.len() implies f(#[trigger] c[i]) by {
            if i == 0 {
                lemma_ascii_upper(w[0]);
                lemma_title_separators(w[0]);
                lemma_title_separators(ascii_upper(w[0]));
                assert(f(w[0]));
            } else {
                assert(c[i] == w[i]);
            }
        }
    }
    lemma_title_separators(' ');
    assert(all_chars(seq![' '], f));
    lemma_join_chars(caps, seq![' '], f);
}

/// The display name of an ASCII service name is empty exactly when the name
/// holds nothing but `-`, `_` and `@`.
pub proof fn lemma_ascii_title_case_empty(value: Seq<char>)
    ensures
        ascii_title_case(value).len() == 0 <==> forall|i: int|
            0 <= i < value.len() ==> title_separators().contains(#[trigger] value[i]),
{
    let seps = title_separators();
    let pieces = text::split_by(value, seps);
    text::lemma_split_by_piece_chars(value, seps);
    lemma_non_empty_parts_empty(pieces);
    let words = non_empty_parts(pieces);
    let caps = words.map_values(|w: Seq<char>| ascii_capitalized(w));
    let t = |c: char| true;
    assert forall|k: int| 0 <= k < pieces.len() implies all_chars(#[trigger] pieces[k], t) by {}
    lemma_non_empty_parts_chars(pieces, t);
    if ascii_title_case(value).len() == 0 {
        if words.len() > 0 {
            lemma_join_prefix(caps, seq![' ']);
            assert(caps[0].len() > 0);
        }
        text::lemma_split_by_all_empty(value, seps);
    } else if forall|i: int| 0 <= i < value.len() ==> seps.contains(#[trigger] value[i]) {
        assert forall|k: int| 0 <= k < pieces.len() implies (#[trigger] pieces[k]).len() == 0 by {
            if pieces[k].len() > 0 {
                assert(value.contains(pieces[k][0]));
                let j = choose|j: int| 0 <= j < value.len() && value[j] == pieces[k][0];
                assert(seps.contains(value[j]));
            }
        }
        assert(caps.len() == 0);
    }
}

/// Taking the display name of the display name of an ASCII service name
/// changes nothing.
pub proof fn lemma_ascii_title_case_idempotent(value: Seq<char>)
    requires
        is_ascii_text(value),
    ensures
        is_ascii_text(ascii_title_case(value)),
        ascii_title_case(ascii_title_case(value)) == ascii_title_case(value),
{
    let seps = title_separators();
    let tc = ascii_title_case(value);
    lemma_ascii_title_case_chars(value);
    text::lemma_split_by_without_separators(tc, seps);
    if tc.len() == 0 {
        let e = Seq::<char>::empty();
        assert(text::split_by(tc, seps) =~= seq![e]);
        assert(seq![e].drop_last() =~= Seq::<Seq<char>>::empty());
        assert(seq![e].last() == e);
        assert(e.len() == 0);
        assert(non_empty_parts(seq![e].drop_last()) =~= Seq::<Seq<char>>::empty());
        assert(non_empty_parts(seq![e]) == non_empty_parts(seq![e].drop_last()));
        assert(non_empty_parts(seq![e]) =~= Seq::<Seq<char>>::empty());
        assert(ascii_title_case(tc) =~= tc);
    } else {
        let one = seq![tc];
        assert(one.drop_last() =~= Seq::<Seq<char>>::empty());
        assert(one.last() == tc);
        assert(non_empty_parts(one.drop_last()) =~= Seq::<Seq<char>>::empty());
        assert(non_empty_parts(one) =~= one);
        let pieces = text::split_by(value, seps);
        let words = non_empty_parts(pieces);
        let caps = words.map_values(|w: Seq<char>| ascii_capitalized(w));
        let tr = |c: char| true;
        text::lemma_split_by_piece_chars(value, seps);
        assert forall|k: int| 0 <= k < pieces.len() implies all_chars(#[trigger] pieces[k], tr) by {}
        lemma_non_empty_parts_chars(pieces, tr);
        if words.len() == 0 {
            assert(caps.len() == 0);
        }
        lemma_join_prefix(caps, seq![' ']);
        assert(words[0].len() > 0);
        assert(caps[0][0] == ascii_upper(words[0][0]));
        assert(tc[0] == caps[0][0]);
        lemma_ascii_upper(words[0][0]);
        let mapped = one.map_values(|w: Seq<char>| ascii_capitalized(w));
        assert(mapped =~= seq![ascii_capitalized(tc)]);
        assert(ascii_capitalized(tc) =~= tc);
        assert(ascii_title_case(tc) == join(mapped, seq![' ']));
    }
}


/// `s` with every character in lower case by the ASCII mapping.
pub open spec fn lower_text(s: Seq<char>) -> Seq<char> {
    s.map_values(|c: char| ascii_lower(c))
}

proof fn lemma_ascii_lower_separators(c: char)
    ensures
        title_separators().contains(ascii_lower(c)) <==> title_separators().contains(c),
{
    lemma_title_separators(c);
    lemma_title_separators(ascii_lower(c));
}

proof fn lemma_split_by_lower(s: Seq<char>)
    ensures
        text::split_by(lower_text(s), title_separators()) == text::split_by(
            s,
            title_separators(),
        ).map_values(|p: Seq<char>| lower_text(p)),
    decreases s.len(),
{
    let seps = title_separators();
    assert(lower_text(Seq::<char>::empty()) =~= Seq::<char>::empty());
    if s.len() == 0 {
        assert(lower_text(s) =~= s);
        assert(text::split_by(s, seps) == seq![Seq::<char>::empty()]);
        assert(text::split_by(s, seps).map_values(|p: Seq<char>| lower_text(p)) =~= seq![
            Seq::<char>::empty(),
        ]);
    } else {
        let t = s.drop_last();
        lemma_split_by_lower(t);
        text::lemma_split_by_nonempty(t, seps);
        let lt = lower_text(t);
        let ls = lower_text(s);
        assert(ls.drop_last() =~= lt);
        assert(ls.last() == ascii_lower(s.last()));
        lemma_ascii_lower_separators(s.last());
        let r = text::split_by(t, seps);
        let mr = r.map_values(|p: Seq<char>| lower_text(p));
        let q = text::split_by(s, seps);
        let mq = q.map_values(|p: Seq<char>| lower_text(p));
        if seps.contains(s.last()) {
            assert(q == r.push(Seq::<char>::empty()));
            assert(mq =~= mr.push(Seq::<char>::empty()));
        } else {
            assert(q == r.update(r.len() - 1, r.last().push(s.last())));
            assert(lower_text(r.last().push(s.last())) =~= lower_text(r.last()).push(
                ascii_lower(s.last()),
            ));
            assert(mq =~= mr.update(mr.len() - 1, mr.last().push(ls.last())));
        }
    }
}

proof fn lemma_non_empty_parts_lower(parts: Seq<Seq<char>>)
    ensures
        non_empty_parts(parts.map_values(|p: Seq<char>| lower_text(p))) == non_empty_parts(
            parts,
        ).map_values(|p: Seq<char>| lower_text(p)),
    decreases parts.len(),
{
    let m = parts.map_values(|p: Seq<char>| lower_text(p));
    if parts.len() == 0 {
        assert(m =~= Seq::<Seq<char>>::empty());
        assert(non_empty_parts(parts).map_values(|p: Seq<char>| lower_text(p)) =~= Seq::<
            Seq<char>,
        >::empty());
    } else {
        let t = parts.drop_last();
        lemma_non_empty_parts_lower(t);
        assert(m.drop_last() =~= t.map_values(|p: Seq<char>| lower_text(p)));
        assert(m.last() == lower_text(parts.last()));
        if parts.last().len() == 0 {
            assert(m.last().len() == 0);
        } else {
            assert(m.last().len() > 0);
            assert(non_empty_parts(parts).map_values(|p: Seq<char>| lower_text(p)) =~= non_empty_parts(
                t,
            ).map_values(|p: Seq<char>| lower_text(p)).push(lower_text(parts.last())));
        }
    }
}

proof fn lemma_join_lower(parts: Seq<Seq<char>>)
    ensures
        lower_text(join(parts, seq![' '])) == join(
            parts.map_values(|p: Seq<char>| lower_text(p)),
            seq![' '],
        ),
    decreases parts.len(),
{
    let m = parts.map_values(|p: Seq<char>| lower_text(p));
    if parts.len() == 0 {
        assert(lower_text(Seq::<char>::empty()) =~= Seq::<char>::empty());
    } else if parts.len() == 1 {
        assert(m[0] == lower_text(parts[0]));
    } else {
        let t = parts.drop_last();
        lemma_join_lower(t);
        assert(m.drop_last() =~= t.map_values(|p: Seq<char>| lower_text(p)));
        assert(m.last() == lower_text(parts.last()));
        let a = join(t, seq![' ']);
        assert(lower_text(a + seq![' '] + parts.last()) =~= lower_text(a) + seq![' '] + lower_text(
            parts.last(),
        ));
    }
}

/// The display name of an ASCII service name, in lower case, is the name in
/// lower case with its words, separated by `-`, `_` or `@`, joined by spaces.
pub proof fn lemma_ascii_title_case_lower(value: Seq<char>)
    ensures
        lower_text(ascii_title_case(value)) == join(
            non_empty_parts(text::split_by(lower_text(value), title_separators())),
            seq![' '],
        ),
{
    let seps = title_separators();
    let pieces = text::split_by(value, seps);
    let words = non_empty_parts(pieces);
    let caps = words.map_values(|w: Seq<char>| ascii_capitalized(w));
    lemma_join_lower(caps);
    let lowered_caps = caps.map_values(|p: Seq<char>| lower_text(p));
    let lowered_words = words.map_values(|p: Seq<char>| lower_text(p));
    assert forall|k: int| 0 <= k < words.len() implies #[trigger] lowered_caps[k]
        == lowered_words[k] by {
        let w = words[k];
        if w.len() > 0 {
            lemma_ascii_upper(w[0]);
            assert(lower_text(ascii_capitalized(w)) =~= lower_text(w));
        }
    }
    assert(lowered_caps =~= lowered_words);
    lemma_non_empty_parts_lower(pieces);
    lemma_split_by_lower(value);
}

/// Whether `c` may stand in a file name unchanged.
pub open spec fn is_file_name_char(c: char) -> bool {
    ('a' <= c && c <= 'z') || ('A' <= c && c <= 'Z') || ('0' <= c && c <= '9') || c == '-' || c
        == '_'
}

/// `value` with every character other than ASCII letters, digits, `-` and `_`
/// replaced by `-`.
pub open spec fn spec_safe_file_name(value: Seq<char>) -> Seq<char> {
    value.map_values(|c: char| if is_file_name_char(c) { c } else { '-' })
}

/// A file name derived from `value`: ASCII letters, digits, `-` and `_` are
/// kept, every other character becomes `-`.
pub fn safe_file_name(value: &str) -> (r: String)
    ensures
        r@ == spec_safe_file_name(value@),
{
    let chars = text::chars_of(value);
    let mut out: Vec<char> = Vec::new();
    let mut i: usize = 0;
    while i < chars.len()
        invariant
            i <= chars@.len(),
            chars@ == value@,
            out@ == spec_safe_file_name(value@.take(i as int)),
        decreases chars.len() - i,
    {
        let c = chars[i];
        let keep = ('a' <= c && c <= 'z') || ('A' <= c && c <= 'Z') || ('0' <= c && c <= '9')
            || c == '-' || c == '_';
        if keep {
            out.push(c);
        } else {
            out.push('-');
        }
        i = i + 1;
        assert(out@ =~= spec_safe_file_name(value@.take(i as int)));
    }
    assert(value@.take(chars@.len() as int) =~= value@);
    text::string_of(out.as_slice())
}

/// What `str::to_lowercase` returns for `s`.
pub uninterp spec fn lowercase_of(s: Seq<char>) -> Seq<char>;

/// The lowercase equivalent of `s`, as `str::to_lowercase` returns it: the
/// contract claims that the result is that function of `s`, and that for a
/// string of ASCII characters it is the ASCII mapping of each character
/// (`A`..`Z` to `a`..`z`, any other character unchanged).
#[verifier::external_body]
fn str_to_lowercase(s: &str) -> (r: String)
    ensures
        r@ == lowercase_of(s@),
        (forall|i: int| 0 <= i < s@.len() ==> is_ascii_char(#[trigger] s@[i])) ==> r@
            == s@.map_values(|c: char| ascii_lower(c)),
{
    s.to_lowercase()
}

/// `s` with every space replaced by `-`.
pub open spec fn dashes_for_spaces(s: Seq<char>) -> Seq<char> {
    s.map_values(|c: char| if c == ' ' { '-' } else { c })
}

/// The id of a custom service: its `id` when it has one, otherwise its name in
/// lower case with spaces replaced by `-`.
pub open spec fn spec_custom_service_id(service: CustomService) -> Seq<char> {
    match service.id {
        Some(id) => id@,
        None => dashes_for_spaces(lowercase_of(service.name@)),
    }
}

/// The id of a custom service, derived from its name when it has none.
pub fn custom_service_id(service: &CustomService) -> (r: String)
    ensures
        r@ == spec_custom_service_id(*service),
{
    match &service.id {
        Some(id) => text::text_of(id.as_str()),
        None => {
            let lower = str_to_lowercase(service.name.as_str());
            let chars = text::chars_of(lower.as_str());
            let mut out: Vec<char> = Vec::new();
            let mut i: usize = 0;
            while i < chars.len()
                invariant
                    i <= chars@.len(),
                    out@ == dashes_for_spaces(chars@.take(i as int)),
                decreases chars.len() - i,
            {
                if chars[i] == ' ' {
                    out.push('-');
                } else {
                    out.push(chars[i]);
                }
                i = i + 1;
                assert(out@ =~= dashes_for_spaces(chars@.take(i as int)));
            }
            assert(chars@.take(chars@.len() as int) =~= chars@);
            text::string_of(out.as_slice())
        },
    }
}

/// An optional text trimmed, and absent when it is blank.
pub open spec fn spec_clean_optional_string(value: Option<Seq<char>>) -> Option<Seq<char>> {
    match value {
        Some(v) => if text::trim(v).len() == 0 {
            None
        } else {
            Some(text::trim(v))
        },
        None => None,
    }
}

/// An optional text trimmed, and `None` when it is blank.
pub fn clean_optional_string(value: Option<String>) -> (r: Option<String>)
    ensures
        crate::model::opt_text(r) == spec_clean_optional_string(crate::model::opt_text(value)),
{
    match value {
        Some(v) => {
            let t = text::trim_str(v.as_str());
            if t.as_str().is_empty() {
                None
            } else {
                Some(t)
            }
        },
        None => None,
    }
}

/// Whether `s` starts with `/`.
pub open spec fn is_absolute(s: Seq<char>) -> bool {
    s.len() > 0 && s[0] == '/'
}

/// The first of `parts` that is absolute once trimmed, trimmed.
pub open spec fn first_absolute(parts: Seq<Seq<char>>) -> Option<Seq<char>>
    decreases parts.len(),
{
    if parts.len() == 0 {
        None
    } else if is_absolute(text::trim(parts[0])) {
        Some(text::trim(parts[0]))
    } else {
        first_absolute(parts.drop_first())
    }
}

/// The path to open for a comma-separated list of paths: none when the list
/// is blank, else its first absolute entry, else the whole list trimmed.
pub open spec fn spec_openable_path(path: Seq<char>) -> Option<Seq<char>> {
    if text::trim(path).len() == 0 {
        None
    } else {
        match first_absolute(ports::comma_parts(path)) {
            Some(p) => Some(p),
            None => Some(text::trim(path)),
        }
    }
}

/// The path to open for a comma-separated list of mount sources.
pub fn openable_path(path: &str) -> (r: Option<String>)
    ensures
        crate::model::opt_text(r) == spec_openable_path(path@),
{
    let chars = text::chars_of(path);
    let whole = text::trim_chars(chars.as_slice());
    if whole.len() == 0 {
        return None;
    }
    let comma = [','];
    assert(comma@ =~= seq![',']);
    let parts = text::split_by_chars(chars.as_slice(), &comma);
    let ghost all = ports::comma_parts(path@);
    let mut i: usize = 0;
    assert(all.skip(0) =~= all);
    while i < parts.len()
        invariant
            i <= parts@.len(),
            text::char_views(parts@) == all,
            all == ports::comma_parts(path@),
            whole@ == text::trim(path@),
            whole@.len() > 0,
            first_absolute(all) == first_absolute(all.skip(i as int)),
        decreases parts.len() - i,
    {
        let candidate = text::trim_chars(parts[i].as_slice());
        assert(all[i as int] == parts@[i as int]@);
        assert(all.skip(i as int)[0] == all[i as int]);
        if candidate.len() > 0 && candidate[0] == '/' {
            return Some(text::string_of(candidate.as_slice()));
        }
        assert(all.skip(i as int).drop_first() =~= all.skip(i + 1));
        i = i + 1;
    }
    assert(all.skip(parts@.len() as int) =~= Seq::<Seq<char>>::empty());
    Some(text::string_of(whole.as_slice()))
}


/// A service id made of a provider without `:` and a name, joined by `:`,
/// splits back into that provider and that name.
pub proof fn lemma_service_id_round_trip(provider: Seq<char>, name: Seq<char>)
    requires
        provider.len() > 0,
        name.len() > 0,
        !provider.contains(':'),
    ensures
        spec_parse_service_id(provider + seq![':'] + name) == Some((provider, name)),
{
    let id = provider + seq![':'] + name;
    let n = provider.len() as int;
    assert(id.subrange(n, n + 1) =~= seq![':']);
    assert forall|k: int| 0 <= k < n implies !text::occurs_at(id, seq![':'], k) by {
        assert(id.subrange(k, k + 1)[0] == provider[k]);
    }
    text::lemma_first_occurrence_unique(id, seq![':'], n);
    assert(id.take(n) =~= provider);
    assert(id.skip(n + 1) =~= name);
}

/// A safe file name has the length of its source, holds only ASCII letters,
/// digits, `-` and `_`, and is its own safe file name.
pub proof fn lemma_safe_file_name(value: Seq<char>)
    ensures
        spec_safe_file_name(value).len() == value.len(),
        forall|i: int|
            0 <= i < value.len() ==> is_file_name_char(#[trigger] spec_safe_file_name(value)[i]),
        spec_safe_file_name(spec_safe_file_name(value)) == spec_safe_file_name(value),
{
    assert(spec_safe_file_name(spec_safe_file_name(value)) =~= spec_safe_file_name(value));
}

/// Cleaning an optional text twice is cleaning it once.
pub proof fn lemma_clean_optional_string_idempotent(value: Option<Seq<char>>)
    ensures
        spec_clean_optional_string(spec_clean_optional_string(value)) == spec_clean_optional_string(
            value,
        ),
{
    if let Some(v) = value {
        text::lemma_trim_idempotent(v);
    }
}

} // verus!
