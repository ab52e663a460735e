//! Simplistic parser of lines describing an item to be added to a cart.
//!
//! A line has the shape `{quantity} {name tokens...} at {price} {tax}`:
//! whitespace-separated tokens with the quantity first, the tax last, the
//! price second to last, and a filler token right before the price; the
//! remaining tokens, joined by single spaces, form the item name. The price
//! is digits with at most one `.`, read by concatenating its digits into
//! minor units ("12.49" is 1249 minor units).

use vstd::prelude::*;

use crate::item::{Item, ItemModel};
use crate::tax::Tax;

verus! {

/// Whitespace for the purpose of splitting a line into tokens.
pub open spec fn is_space_char(c: char) -> bool {
    c == ' ' || c == '\t' || c == '\n' || c == '\r' || c == '\u{b}' || c == '\u{c}'
}

fn is_space(c: char) -> (r: bool)
    ensures
        r == is_space_char(c),
{
    c == ' ' || c == '\t' || c == '\n' || c == '\r' || c == '\u{b}' || c == '\u{c}'
}

/// The maximal runs of non-space characters of `s`, in order.
pub open spec fn spec_tokens(s: Seq<char>) -> Seq<Seq<char>>
    decreases s.len(),
{
    if s.len() == 0 {
        Seq::empty()
    } else {
        let prefix = spec_tokens(s.drop_last());
        let c = s.last();
        if is_space_char(c) {
            prefix
        } else if s.len() == 1 || is_space_char(s[s.len() - 2]) {
            prefix.push(seq![c])
        } else {
            prefix.update(prefix.len() - 1, prefix.last().push(c))
        }
    }
}

/// The views of a sequence of owned strings.
pub open spec fn views_of(tokens: Seq<String>) -> Seq<Seq<char>> {
    tokens.map_values(|t: String| t@)
}

/// Split a line into its whitespace-separated tokens.
fn tokenize(s: &str) -> (tokens: Vec<String>)
    ensures
        views_of(tokens@) == spec_tokens(s@),
{
    let n: usize = s.unicode_len();
    let mut tokens: Vec<String> = Vec::new();
    let mut start: usize = 0;
    let mut in_token = false;
    let mut i: usize = 0;
    while i < n
        invariant
            n == s@.len(),
            i <= n,
            !in_token ==> views_of(tokens@) == spec_tokens(s@.subrange(0, i as int)),
            !in_token ==> (i == 0 || is_space_char(s@[i as int - 1])),
            in_token ==> start < i && !is_space_char(s@[i as int - 1]) && views_of(tokens@).push(
                s@.subrange(start as int, i as int),
            ) == spec_tokens(s@.subrange(0, i as int)),
        decreases n - i,
    {
        let ghost pre = s@.subrange(0, i as int);
        let ghost pre1 = s@.subrange(0, i as int + 1);
        proof {
            assert(pre1.drop_last() =~= pre);
            assert(pre1.last() == s@[i as int]);
        }
        let c = s.get_char(i);
        if is_space(c) {
            if in_token {
                let tok = s.substring_char(start, i);
                tokens.push(tok.to_owned());
                in_token = false;
                proof {
                    assert(views_of(tokens@) =~= spec_tokens(pre1));
                }
            }
        } else {
            if !in_token {
                start = i;
                in_token = true;
                proof {
                    assert(s@.subrange(start as int, i as int + 1) =~= seq![s@[i as int]]);
                    assert(views_of(tokens@).push(s@.subrange(start as int, i as int + 1))
                        =~= spec_tokens(pre1));
                }
            } else {
                proof {
                    let cur = s@.subrange(start as int, i as int);
                    let prefix = spec_tokens(pre);
                    assert(s@.subrange(start as int, i as int + 1) =~= cur.push(s@[i as int]));
                    assert(prefix.update(prefix.len() - 1, prefix.last().push(s@[i as int]))
                        =~= views_of(tokens@).push(s@.subrange(start as int, i as int + 1)));
                }
            }
        }
        i += 1;
    }
    proof {
        assert(s@.subrange(0, n as int) =~= s@);
    }
    if in_token {
        let tok = s.substring_char(start, n);
        tokens.push(tok.to_owned());
        proof {
            assert(views_of(tokens@) =~= spec_tokens(s@));
        }
    }
    tokens
}

/// A decimal digit.
pub open spec fn is_digit_char(c: char) -> bool {
    48 <= c as int && c as int <= 57
}

pub open spec fn all_digits(s: Seq<char>) -> bool {
    forall|i: int| 0 <= i < s.len() ==> is_digit_char(#[trigger] s[i])
}

/// The value of a string of decimal digits, most significant first.
pub open spec fn spec_digits_val(s: Seq<char>) -> int
    decreases s.len(),
{
    if s.len() == 0 {
        0
    } else {
        spec_digits_val(s.drop_last()) * 10 + (s.last() as int - 48)
    }
}

/// The number a token denotes: at least one character, all of them decimal
/// digits, and a value within the `u32` range; anything else fails.
pub open spec fn spec_parse_u32(s: Seq<char>) -> Option<u32> {
    if s.len() > 0 && all_digits(s) && spec_digits_val(s) <= u32::MAX {
        Some(spec_digits_val(s) as u32)
    } else {
        None
    }
}

proof fn lemma_digits_val_nonneg(s: Seq<char>)
    requires
        all_digits(s),
    ensures
        spec_digits_val(s) >= 0,
    decreases s.len(),
{
    if s.len() > 0 {
        assert(all_digits(s.drop_last()));
        lemma_digits_val_nonneg(s.drop_last());
    }
}

/// Reading further digits never shrinks the value.
proof fn lemma_digits_val_prefix_le(s: Seq<char>, i: int)
    requires
        0 <= i <= s.len(),
        all_digits(s),
    ensures
        spec_digits_val(s.subrange(0, i)) <= spec_digits_val(s),
    decreases s.len() - i,
{
    if i < s.len() {
        assert(s.subrange(0, i + 1).drop_last() =~= s.subrange(0, i));
        assert(all_digits(s.subrange(0, i)));
        lemma_digits_val_nonneg(s.subrange(0, i));
        lemma_digits_val_prefix_le(s, i + 1);
    } else {
        assert(s.subrange(0, s.len() as int) =~= s);
    }
}

/// Parse an unsigned number of at most `u32` range from a token.
fn parse_u32(s: &str) -> (r: Option<u32>)
    ensures
        r == spec_parse_u32(s@),
{
    let n: usize = s.unicode_len();
    if n == 0 {
        return None;
    }
    let mut acc: u32 = 0;
    let mut i: usize = 0;
    while i < n
        invariant
            n == s@.len(),
            i <= n,
            all_digits(s@.subrange(0, i as int)),
            acc == spec_digits_val(s@.subrange(0, i as int)),
        decreases n - i,
    {
        let ghost pre = s@.subrange(0, i as int);
        let ghost pre1 = s@.subrange(0, i as int + 1);
        proof {
            assert(pre1.drop_last() =~= pre);
            assert(pre1.last() == s@[i as int]);
        }
        let c = s.get_char(i);
        let u = c as u32;
        if u < 48 || u > 57 {
            proof {
                assert(!is_digit_char(s@[i as int]));
            }
            return None;
        }
        let d: u32 = u - 48;
        let next = match acc.checked_mul(10) {
            Some(m) => m.checked_add(d),
            None => None,
        };
        match next {
            Some(v) => {
                acc = v;
            }
            None => {
                proof {
                    assert(spec_digits_val(pre1) > u32::MAX);
                    if all_digits(s@) {
                        lemma_digits_val_prefix_le(s@, i as int + 1);
                    }
                }
                return None;
            }
        }
        i += 1;
    }
    proof {
        assert(s@.subrange(0, n as int) =~= s@);
    }
    Some(acc)
}

/// A number of at most `u8` range.
pub open spec fn spec_parse_u8(s: Seq<char>) -> Option<u8> {
    match spec_parse_u32(s) {
        Some(v) => if v <= 255 {
            Some(v as u8)
        } else {
            None
        },
        None => None,
    }
}

/// `s` with every `.` removed.
pub open spec fn strip_dots(s: Seq<char>) -> Seq<char>
    decreases s.len(),
{
    if s.len() == 0 {
        s
    } else if s.last() == '.' {
        strip_dots(s.drop_last())
    } else {
        strip_dots(s.drop_last()).push(s.last())
    }
}

/// How many `.` characters `s` holds.
pub open spec fn spec_dot_count(s: Seq<char>) -> int
    decreases s.len(),
{
    if s.len() == 0 {
        0
    } else {
        spec_dot_count(s.drop_last()) + if s.last() == '.' {
            1int
        } else {
            0int
        }
    }
}

/// A price token: digits with at most one `.`, read with the `.` dropped,
/// so that "12.49" denotes 1249 minor units.
pub open spec fn spec_parse_price(s: Seq<char>) -> Option<u32> {
    if spec_dot_count(s) <= 1 {
        spec_parse_u32(strip_dots(s))
    } else {
        None
    }
}

proof fn lemma_digits_val_push(s: Seq<char>, c: char)
    ensures
        spec_digits_val(s.push(c)) == spec_digits_val(s) * 10 + (c as int - 48),
{
    assert(s.push(c).drop_last() =~= s);
    assert(s.push(c).last() == c);
}

proof fn lemma_dot_count_prefix_le(s: Seq<char>, i: int)
    requires
        0 <= i <= s.len(),
    ensures
        spec_dot_count(s.subrange(0, i)) <= spec_dot_count(s),
    decreases s.len() - i,
{
    if i < s.len() {
        assert(s.subrange(0, i + 1).drop_last() =~= s.subrange(0, i));
        lemma_dot_count_prefix_le(s, i + 1);
    } else {
        assert(s.subrange(0, s.len() as int) =~= s);
    }
}

/// The stripped prefix is a prefix of the stripped whole.
proof fn lemma_strip_prefix(s: Seq<char>, i: int)
    requires
        0 <= i <= s.len(),
    ensures
        strip_dots(s.subrange(0, i)).len() <= strip_dots(s).len(),
        strip_dots(s.subrange(0, i)) == strip_dots(s).subrange(
            0,
            strip_dots(s.subrange(0, i)).len() as int,
        ),
    decreases s.len() - i,
{
    if i < s.len() {
        assert(s.subrange(0, i + 1).drop_last() =~= s.subrange(0, i));
        lemma_strip_prefix(s, i + 1);
        let t0 = strip_dots(s.subrange(0, i));
        let t1 = strip_dots(s.subrange(0, i + 1));
        let whole = strip_dots(s);
        assert(t0 == t1.subrange(0, t0.len() as int) || t0 == t1);
        assert(t0 =~= whole.subrange(0, t0.len() as int));
    } else {
        assert(s.subrange(0, s.len() as int) =~= s);
        assert(strip_dots(s) =~= strip_dots(s).subrange(0, strip_dots(s).len() as int));
    }
}

/// Parse a price token.
fn parse_price(s: &str) -> (r: Option<u32>)
    ensures
        r == spec_parse_price(s@),
{
    let n: usize = s.unicode_len();
    let mut acc: u32 = 0;
    let mut dots: u32 = 0;
    let mut digits: usize = 0;
    let mut i: usize = 0;
    while i < n
        invariant
            n == s@.len(),
            i <= n,
            dots == spec_dot_count(s@.subrange(0, i as int)),
            dots <= 1,
            digits <= i,
            digits == strip_dots(s@.subrange(0, i as int)).len(),
            all_digits(strip_dots(s@.subrange(0, i as int))),
            acc == spec_digits_val(strip_dots(s@.subrange(0, i as int))),
        decreases n - i,
    {
        let ghost pre = s@.subrange(0, i as int);
        let ghost pre1 = s@.subrange(0, i as int + 1);
        proof {
            assert(pre1.drop_last() =~= pre);
            assert(pre1.last() == s@[i as int]);
        }
        let c = s.get_char(i);
        if c == '.' {
            if dots >= 1 {
                proof {
                    assert(spec_dot_count(pre1) >= 2);
                    lemma_dot_count_prefix_le(s@, i as int + 1);
                }
                return None;
            }
            dots += 1;
        } else {
            proof {
                assert(strip_dots(pre1) =~= strip_dots(pre).push(s@[i as int]));
                lemma_digits_val_push(strip_dots(pre), s@[i as int]);
            }
            let u = c as u32;
            if u < 48 || u > 57 {
                proof {
                    assert(!is_digit_char(s@[i as int]));
                    lemma_strip_prefix(s@, i as int + 1);
                    let t1 = strip_dots(pre1);
                    let whole = strip_dots(s@);
                    assert(t1 == whole.subrange(0, t1.len() as int));
                    assert(t1[t1.len() - 1] == s@[i as int]);
                    assert(whole[t1.len() - 1] == t1[t1.len() - 1]);
                    assert(!all_digits(whole));
                }
                return None;
            }
            let d: u32 = u - 48;
            let next = match acc.checked_mul(10) {
                Some(m) => m.checked_add(d),
                None => None,
            };
            match next {
                Some(v) => {
                    acc = v;
                }
                None => {
                    proof {
                        assert(spec_digits_val(strip_dots(pre1)) > u32::MAX);
                        if all_digits(strip_dots(s@)) {
                            lemma_strip_prefix(s@, i as int + 1);
                            let t1 = strip_dots(pre1);
                            let whole = strip_dots(s@);
                            lemma_digits_val_prefix_le(whole, t1.len() as int);
                        }
                    }
                    return None;
                }
            }
            digits += 1;
        }
        i += 1;
    }
    proof {
        assert(s@.subrange(0, n as int) =~= s@);
    }
    if digits == 0 {
        return None;
    }
    Some(acc)
}

/// The tax category a tax token's value names.
pub open spec fn spec_tax_of(v: u8) -> Option<Tax> {
    if v == 0 {
        Some(Tax::Tax0)
    } else if v == 5 {
        Some(Tax::Tax5)
    } else if v == 10 {
        Some(Tax::Tax10)
    } else if v == 15 {
        Some(Tax::Tax15)
    } else {
        None
    }
}

/// The name tokens of a line: everything between the quantity and the
/// filler token before the price.
pub open spec fn spec_id_tokens(t: Seq<Seq<char>>) -> Seq<Seq<char>> {
    if t.len() >= 4 {
        t.subrange(1, t.len() - 3)
    } else {
        Seq::empty()
    }
}

/// Tokens joined by single spaces.
pub open spec fn spec_join(ts: Seq<Seq<char>>) -> Seq<char>
    decreases ts.len(),
{
    if ts.len() == 0 {
        Seq::empty()
    } else if ts.len() == 1 {
        ts[0]
    } else {
        spec_join(ts.drop_last()) + seq![' '] + ts.last()
    }
}

/// What parsing a line yields: the quantity and the described item, or the
/// message naming the first field that failed.
pub open spec fn spec_parse_line(line: Seq<char>) -> Result<(u32, ItemModel), Seq<char>> {
    let t = spec_tokens(line);
    if t.len() == 0 {
        Err("Failed to parse quantity."@)
    } else {
        match spec_parse_u32(t[0]) {
            None => Err("Failed to parse quantity."@),
            Some(quantity) => if t.len() < 2 {
                Err("Failed to parse tax."@)
            } else {
                match spec_parse_u8(t[t.len() - 1]) {
                    None => Err("Failed to parse tax."@),
                    Some(tv) => match spec_tax_of(tv) {
                        None => Err("Invalid tax supplied."@),
                        Some(tax) => if t.len() < 3 {
                            Err("Failed to parse price"@)
                        } else {
                            match spec_parse_price(t[t.len() - 2]) {
                                None => Err("Failed to parse price."@),
                                Some(price) => Ok(
                                    (
                                        quantity,
                                        ItemModel {
                                            id: spec_join(spec_id_tokens(t)),
                                            price,
                                            tax,
                                        },
                                    ),
                                ),
                            }
                        },
                    },
                }
            },
        }
    }
}

/// Parse an input line of the form: {item quantity} {item id} {item price} {tax}
pub fn parse(line: &String) -> (r: Result<(u32, Item), &'static str>)
    ensures
        (match r {
            Ok(p) => spec_parse_line(line@) matches Ok(sp) && p.0 == sp.0 && p.1@ == sp.1,
            Err(e) => spec_parse_line(line@) matches Err(m) && e@ == m,
        }),
{
    let tokens = tokenize(line.as_str());
    let ghost t = spec_tokens(line@);
    let n_tok: usize = tokens.len();
    if n_tok == 0 {
        return Err("Failed to parse quantity.");
    }
    let quantity = match parse_u32(tokens[0].as_str()) {
        Some(q) => q,
        None => {
            return Err("Failed to parse quantity.");
        }
    };
    if n_tok < 2 {
        return Err("Failed to parse tax.");
    }
    let tax_value = match parse_u32(tokens[n_tok - 1].as_str()) {
        Some(v) => v,
        None => {
            return Err("Failed to parse tax.");
        }
    };
    if tax_value > 255 {
        return Err("Failed to parse tax.");
    }
    let tax = if tax_value == 0 {
        Tax::Tax0
    } else if tax_value == 5 {
        Tax::Tax5
    } else if tax_value == 10 {
        Tax::Tax10
    } else if tax_value == 15 {
        Tax::Tax15
    } else {
        return Err("Invalid tax supplied.");
    };
    if n_tok < 3 {
        return Err("Failed to parse price");
    }
    let price = match parse_price(tokens[n_tok - 2].as_str()) {
        Some(p) => p,
        None => {
            return Err("Failed to parse price.");
        }
    };
    let mut id = String::new();
    let end: usize = n_tok - 3;
    let mut j: usize = 1;
    while j < end
        invariant
            n_tok == tokens@.len(),
            views_of(tokens@) == t,
            3 <= n_tok,
            end == n_tok - 3,
            1 <= j,
            j <= end || j == 1,
            id@ == spec_join(t.subrange(1, j as int)),
        decreases end - j,
    {
        proof {
            assert(t.subrange(1, j as int + 1).drop_last() =~= t.subrange(1, j as int));
            assert(t.subrange(1, j as int + 1).last() == t[j as int]);
        }
        if j == 1 {
            id.append(tokens[j].as_str());
            proof {
                assert(t.subrange(1, 2) =~= seq![t[1]]);
                assert(id@ =~= spec_join(t.subrange(1, 2)));
            }
        } else {
            id.append(" ");
            id.append(tokens[j].as_str());
            proof {
                reveal_strlit(" ");
                assert(" "@ =~= seq![' ']);
                assert(id@ =~= spec_join(t.subrange(1, j as int + 1)));
            }
        }
        j += 1;
    }
    proof {
        if end >= 2 {
            assert(t.subrange(1, end as int) =~= spec_id_tokens(t));
        } else {
            assert(t.subrange(1, 1) =~= Seq::<Seq<char>>::empty());
            assert(spec_id_tokens(t) =~= Seq::<Seq<char>>::empty());
        }
        assert(id@ == spec_join(spec_id_tokens(t)));
    }
    Ok((quantity, Item::new(id.as_str(), price, tax)))
}

} // verus!
