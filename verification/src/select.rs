//! Keyed value selection: picking one value expression out of an
//! object-literal-like property list by a selection key.
//!
//! A spread property anywhere in the list is a fatal fault; otherwise the
//! first property that is not a key-value pair, or whose key has no textual
//! form, decides the error. Key comparison is on the textual form of the key.
//! If no key matches, the first property's value is the fallback; an empty
//! list selects nothing.

use vstd::prelude::*;

use crate::ast::{
    Expr, ExprView, Prop, PropKey, PropKeyView, PropOrSpread, PropOrSpreadView, PropView,
    WalnutError, lemma_view_prop_seq, view_expr, view_prop_or_spread, view_prop_seq,
};
use crate::text::string_eq;

verus! {

/// The textual form under which a property key is compared: an identifier's
/// name, a string's value, or a numeric or big-integer literal's text.
/// A computed key has none.
pub open spec fn key_text(k: PropKeyView) -> Option<Seq<char>> {
    match k {
        PropKeyView::Ident(s) => Some(s),
        PropKeyView::Str(s) => Some(s),
        PropKeyView::Num(s) => Some(s),
        PropKeyView::BigInt(s) => Some(s),
        PropKeyView::Computed(_) => None,
    }
}

/// The structural fault of a single property, spreads aside.
pub open spec fn prop_fault(p: PropOrSpreadView) -> Option<WalnutError> {
    match p {
        PropOrSpreadView::Spread(_) => None,
        PropOrSpreadView::Prop(PropView::Shorthand(_)) => Some(WalnutError::MissingPropertyValue),
        PropOrSpreadView::Prop(PropView::KeyValue(k, _)) => match k {
            PropKeyView::Computed(_) => Some(WalnutError::InvalidKeyKind),
            _ => None,
        },
    }
}

/// Some property of the list is a spread element.
pub open spec fn has_spread(props: Seq<PropOrSpreadView>) -> bool {
    exists|i: int| 0 <= i < props.len() && props[i] is Spread
}

/// The first non-spread fault at or after `from`, if any.
pub open spec fn first_fault_from(props: Seq<PropOrSpreadView>, from: int) -> Option<WalnutError>
    decreases props.len() - from,
    when 0 <= from
{
    if from >= props.len() {
        None
    } else {
        match prop_fault(props[from]) {
            Some(e) => Some(e),
            None => first_fault_from(props, from + 1),
        }
    }
}

/// With no fault at or after `from`, every later property is fault-free.
pub proof fn lemma_first_fault_all(props: Seq<PropOrSpreadView>, from: int)
    requires
        0 <= from,
        first_fault_from(props, from) is None,
    ensures
        forall|j: int| from <= j < props.len() ==> prop_fault(#[trigger] props[j]) is None,
    decreases props.len() - from,
{
    if from < props.len() {
        lemma_first_fault_all(props, from + 1);
    }
}

/// The error a selection over `props` fails with, if any: a spread anywhere
/// dominates; otherwise the first faulty property decides.
pub open spec fn select_error(props: Seq<PropOrSpreadView>) -> Option<WalnutError> {
    if has_spread(props) {
        Some(WalnutError::UnsupportedSpread)
    } else {
        first_fault_from(props, 0)
    }
}

/// The property is a key-value pair whose key's textual form is `key`.
pub open spec fn prop_matches(p: PropOrSpreadView, key: Seq<char>) -> bool {
    match p {
        PropOrSpreadView::Prop(PropView::KeyValue(k, _)) => key_text(k) == Some(key),
        _ => false,
    }
}

/// The first position at or after `from` whose property matches `key`.
pub open spec fn find_key_from(props: Seq<PropOrSpreadView>, key: Seq<char>, from: int) -> Option<
    int,
>
    decreases props.len() - from,
    when 0 <= from
{
    if from >= props.len() {
        None
    } else if prop_matches(props[from], key) {
        Some(from)
    } else {
        find_key_from(props, key, from + 1)
    }
}

/// The value of a key-value property; meaningless for other properties.
pub open spec fn prop_value(p: PropOrSpreadView) -> ExprView {
    match p {
        PropOrSpreadView::Prop(PropView::KeyValue(_, v)) => *v,
        _ => ExprView::Ident(Seq::empty()),
    }
}

/// What keyed value selection returns: the first matching property's value,
/// the first property's value as fallback, nothing for an empty list, or the
/// error `select_error` gives.
pub open spec fn select_spec(props: Seq<PropOrSpreadView>, key: Seq<char>) -> Result<
    Option<ExprView>,
    WalnutError,
> {
    match select_error(props) {
        Some(e) => Err(e),
        None => match find_key_from(props, key, 0) {
            Some(i) => Ok(Some(prop_value(props[i]))),
            None => if props.len() > 0 {
                Ok(Some(prop_value(props[0])))
            } else {
                Ok(None)
            },
        },
    }
}

/// Spread rejection: an object literal containing a spread element anywhere
/// in its property list makes keyed value selection fail with
/// `UnsupportedSpread`, never silently skip the spread.
pub proof fn lemma_spread_rejection(props: Seq<PropOrSpreadView>, key: Seq<char>)
    requires
        exists|i: int| 0 <= i < props.len() && props[i] is Spread,
    ensures
        select_spec(props, key) == Err::<Option<ExprView>, WalnutError>(
            WalnutError::UnsupportedSpread,
        ),
{
    assert(has_spread(props));
}

/// The ghost value of a selection result.
pub open spec fn view_selection(r: Result<Option<Expr>, WalnutError>) -> Result<
    Option<ExprView>,
    WalnutError,
> {
    match r {
        Ok(Some(e)) => Ok(Some(view_expr(e))),
        Ok(None) => Ok(None),
        Err(e) => Err(e),
    }
}

/// Selects the value for `key` out of an object literal's property list.
pub fn select_value(props: Vec<PropOrSpread>, key: &String) -> (r: Result<
    Option<Expr>,
    WalnutError,
>)
    ensures
        view_selection(r) == select_spec(view_prop_seq(props@), key@),
{
    let ghost vprops = view_prop_seq(props@);
    proof {
        lemma_view_prop_seq(props@);
    }
    let n: usize = props.len();

    // A spread element anywhere is fatal.
    let mut i: usize = 0;
    while i < n
        invariant
            n == props@.len(),
            vprops == view_prop_seq(props@),
            vprops.len() == n,
            forall|j: int| 0 <= j < props@.len() ==> vprops[j] == view_prop_or_spread(
                #[trigger] props@[j],
            ),
            i <= n,
            forall|j: int| 0 <= j < i ==> !(#[trigger] vprops[j] is Spread),
        decreases n - i,
    {
        match &props[i] {
            PropOrSpread::Spread(_) => {
                assert(vprops[i as int] is Spread);
                return Err(WalnutError::UnsupportedSpread);
            },
            _ => {},
        }
        i = i + 1;
    }
    proof {
        if has_spread(vprops) {
            let w = choose|w: int| 0 <= w < vprops.len() && vprops[w] is Spread;
            assert(false);
        }
    }

    // The first property that is not a usable key-value pair is fatal.
    let mut i: usize = 0;
    while i < n
        invariant
            n == props@.len(),
            vprops == view_prop_seq(props@),
            vprops.len() == n,
            forall|j: int| 0 <= j < props@.len() ==> vprops[j] == view_prop_or_spread(
                #[trigger] props@[j],
            ),
            i <= n,
            first_fault_from(vprops, 0) == first_fault_from(vprops, i as int),
            !has_spread(vprops),
        decreases n - i,
    {
        match &props[i] {
            PropOrSpread::Prop(Prop::Shorthand(_)) => {
                assert(prop_fault(vprops[i as int]) == Some(WalnutError::MissingPropertyValue));
                return Err(WalnutError::MissingPropertyValue);
            },
            PropOrSpread::Prop(Prop::KeyValue(PropKey::Computed(_), _)) => {
                assert(prop_fault(vprops[i as int]) == Some(WalnutError::InvalidKeyKind));
                return Err(WalnutError::InvalidKeyKind);
            },
            _ => {},
        }
        assert(prop_fault(vprops[i as int]) is None);
        i = i + 1;
    }
    assert(first_fault_from(vprops, 0) is None);

    // The first matching key wins; otherwise fall back to the first property.
    let mut idx: usize = 0;
    let mut found: bool = false;
    let mut i: usize = 0;
    while i < n && !found
        invariant
            n == props@.len(),
            vprops == view_prop_seq(props@),
            vprops.len() == n,
            forall|j: int| 0 <= j < props@.len() ==> vprops[j] == view_prop_or_spread(
                #[trigger] props@[j],
            ),
            i <= n,
            found ==> i < n && idx == i && find_key_from(vprops, key@, 0) == Some(i as int),
            !found ==> find_key_from(vprops, key@, 0) == find_key_from(vprops, key@, i as int),
        decreases (if found { 0int } else { 1int }), n - i,
    {
        let matched: bool = match &props[i] {
            PropOrSpread::Prop(Prop::KeyValue(k, _)) => match k {
                PropKey::Ident(s) => string_eq(s, key),
                PropKey::Str(s) => string_eq(s, key),
                PropKey::Num(s) => string_eq(s, key),
                PropKey::BigInt(s) => string_eq(s, key),
                PropKey::Computed(_) => false,
            },
            _ => false,
        };
        if matched {
            assert(prop_matches(vprops[i as int], key@));
            idx = i;
            found = true;
        } else {
            assert(!prop_matches(vprops[i as int], key@));
            i = i + 1;
        }
    }

    if !found {
        if n == 0 {
            return Ok(None);
        }
        idx = 0;
    }

    proof {
        if found {
            assert(find_key_from(vprops, key@, 0) == Some(idx as int));
        } else {
            assert(find_key_from(vprops, key@, 0) is None);
        }
        assert(select_error(vprops) is None);
        if vprops[idx as int] is Spread {
            assert(has_spread(vprops));
        }
        assert(vprops[idx as int] is Prop);
    }

    let mut props = props;
    let p = props.remove(idx);
    proof {
        assert(vprops[idx as int] == view_prop_or_spread(p));
        lemma_first_fault_all(vprops, 0);
    }
    match p {
        PropOrSpread::Prop(Prop::KeyValue(_, v)) => Ok(Some(*v)),
        _ => {
            proof {
                assert(prop_fault(vprops[idx as int]) is None);
                assert(false);
            }
            Err(WalnutError::MissingPropertyValue)
        },
    }
}

} // verus!
