//! Editable text fields of the input wizard: a single numeric buffer with a
//! per-field character filter, and the two-sided percent-or-amount field
//! whose selector picks which buffer is edited and validated.

use crate::codec::{DOT, MINUS, ZERO};
use vstd::prelude::*;

verus! {

/// Which bytes a field accepts: money and percent fields take digits and a
/// dot; the appreciation field also takes a leading minus; the loan term
/// takes digits only.
#[derive(Clone, Copy, Debug, PartialEq, Eq, Structural)]
pub enum CharRule {
    MoneyChars,
    SignedChars,
    DigitChars,
}

/// Whether a byte may be appended to a buffer that currently holds `len`
/// bytes, under the given rule.
pub open spec fn byte_allowed(rule: CharRule, b: u8, len: nat) -> bool {
    match rule {
        CharRule::MoneyChars => (ZERO <= b <= 57) || b == DOT,
        CharRule::SignedChars => (ZERO <= b <= 57) || b == DOT || (b == MINUS && len == 0),
        CharRule::DigitChars => ZERO <= b <= 57,
    }
}

/// One editable numeric buffer.
#[derive(Clone, Debug)]
pub struct Field {
    pub text: Vec<u8>,
    pub rule: CharRule,
}

/// `f1` is `f0` after a character-entry action with byte `b`: appended when
/// the rule accepts it, ignored otherwise.
pub open spec fn pushed_field(f0: Field, f1: Field, b: u8) -> bool {
    &&& f1.rule == f0.rule
    &&& if byte_allowed(f0.rule, b, f0.text@.len()) {
        f1.text@ == f0.text@.push(b)
    } else {
        f1.text@ == f0.text@
    }
}

/// `f1` is `f0` after an erase action: last byte removed, no-op on empty.
pub open spec fn erased_field(f0: Field, f1: Field) -> bool {
    &&& f1.rule == f0.rule
    &&& if f0.text@.len() > 0 {
        f1.text@ == f0.text@.drop_last()
    } else {
        f1.text@ == f0.text@
    }
}

impl Field {
    /// Non-empty: the only validity an input step demands before advancing.
    pub open spec fn is_filled(self) -> bool {
        self.text@.len() > 0
    }

    /// An empty field under the given rule.
    pub fn new(rule: CharRule) -> (f: Field)
        ensures
            f.text@ =~= Seq::<u8>::empty(),
            f.rule == rule,
    {
        Field { text: Vec::new(), rule }
    }

    /// Appends `b` if the field's rule accepts it; a byte that does not
    /// conform is silently ignored.
    pub fn push_char(&mut self, b: u8)
        ensures
            pushed_field(*old(self), *final(self), b),
    {
        let ok: bool = match self.rule {
            CharRule::MoneyChars => (ZERO <= b && b <= 57) || b == DOT,
            CharRule::SignedChars => (ZERO <= b && b <= 57) || b == DOT || (b == MINUS
                && self.text.len() == 0),
            CharRule::DigitChars => ZERO <= b && b <= 57,
        };
        if ok {
            self.text.push(b);
        }
    }

    /// Removes the last byte; a no-op on an empty field.
    pub fn erase(&mut self)
        ensures
            erased_field(*old(self), *final(self)),
    {
        if self.text.len() > 0 {
            let _ = self.text.pop();
            proof {
                assert(final(self).text@ =~= old(self).text@.drop_last());
            }
        }
    }
}

/// A cost category entered either as a percentage or as an absolute
/// amount; the selector says which side is active.
#[derive(Clone, Debug)]
pub struct DualField {
    pub percent: Field,
    pub amount: Field,
    pub use_percent: bool,
}

/// A dual field with its selector flipped and both texts untouched.
pub open spec fn toggled(d: DualField) -> DualField {
    DualField { use_percent: !d.use_percent, ..d }
}

/// `d1` is `d0` after a character-entry action: only the active side moves.
pub open spec fn pushed_dual(d0: DualField, d1: DualField, b: u8) -> bool {
    &&& d1.use_percent == d0.use_percent
    &&& if d0.use_percent {
        pushed_field(d0.percent, d1.percent, b) && d1.amount == d0.amount
    } else {
        pushed_field(d0.amount, d1.amount, b) && d1.percent == d0.percent
    }
}

/// `d1` is `d0` after an erase action: only the active side moves.
pub open spec fn erased_dual(d0: DualField, d1: DualField) -> bool {
    &&& d1.use_percent == d0.use_percent
    &&& if d0.use_percent {
        erased_field(d0.percent, d1.percent) && d1.amount == d0.amount
    } else {
        erased_field(d0.amount, d1.amount) && d1.percent == d0.percent
    }
}

impl DualField {
    /// Both sides empty, percentage side active.
    pub fn new() -> (d: DualField)
        ensures
            d.percent.text@ =~= Seq::<u8>::empty(),
            d.amount.text@ =~= Seq::<u8>::empty(),
            d.percent.rule == CharRule::MoneyChars,
            d.amount.rule == CharRule::MoneyChars,
            d.use_percent,
    {
        DualField {
            percent: Field::new(CharRule::MoneyChars),
            amount: Field::new(CharRule::MoneyChars),
            use_percent: true,
        }
    }

    /// The buffer the selector points at.
    pub open spec fn active_text(self) -> Seq<u8> {
        if self.use_percent {
            self.percent.text@
        } else {
            self.amount.text@
        }
    }

    pub open spec fn is_filled(self) -> bool {
        self.active_text().len() > 0
    }

    /// Flips which side is active.  Neither buffer changes.
    pub fn toggle(&mut self)
        ensures
            *final(self) == toggled(*old(self)),
    {
        self.use_percent = !self.use_percent;
    }

    /// Appends to the active side only.
    pub fn push_char(&mut self, b: u8)
        ensures
            pushed_dual(*old(self), *final(self), b),
    {
        if self.use_percent {
            self.percent.push_char(b);
        } else {
            self.amount.push_char(b);
        }
    }

    /// Erases from the active side only.
    pub fn erase(&mut self)
        ensures
            erased_dual(*old(self), *final(self)),
    {
        if self.use_percent {
            self.percent.erase();
        } else {
            self.amount.erase();
        }
    }
}

/// Toggling is an involution that never touches either buffer: flipping the
/// selector leaves both stored texts as they were, and flipping it twice
/// restores the dual field — active value included — exactly.
pub proof fn lemma_toggle_involution(d: DualField)
    ensures
        toggled(d).percent == d.percent,
        toggled(d).amount == d.amount,
        toggled(toggled(d)) == d,
        toggled(toggled(d)).active_text() == d.active_text(),
{
}

} // verus!
