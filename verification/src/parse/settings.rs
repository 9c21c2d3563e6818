//! The trailing `SETTINGS k = v`, which bounds one statement.

use vstd::prelude::*;
use crate::error::{Refused, Result};
use crate::lex::{Tok, TokView};
use crate::parse::cursor::{expected, goes, moved, read_ident, read_number, refused, seen_plain, tok_is, word_at, Env, Out, Parser};
use crate::settings::{no_settings, Settings};
use crate::text::same_word;

verus! {

/// The limits with one of them written, when the key names one.
pub open spec fn with_setting(s: Settings, key: Seq<char>, value: u64) -> Option<Settings> {
    if same_word(key, "max_execution_time"@) {
        Some(Settings { max_execution_time: Some(value), ..s })
    } else if same_word(key, "max_memory_usage"@) {
        Some(Settings { max_memory_usage: Some(value), ..s })
    } else if same_word(key, "max_result_rows"@) {
        Some(Settings { max_result_rows: Some(value), ..s })
    } else if same_word(key, "max_delete_records"@) {
        Some(Settings { max_delete_records: Some(value), ..s })
    } else {
        None
    }
}

/// One `k = v`, over the limits already read. The last value written for a key is the one that
/// holds.
pub open spec fn read_setting(e: Env, i: int, s: Settings) -> Out<Settings> {
    match read_ident(e, i, "a setting name after SETTINGS"@) {
        Err(x) => Err(x),
        Ok((key, j)) => if !tok_is(e, j, TokView::Op("="@)) {
            Err(expected(e, j, "= and a value after the setting name"@))
        } else {
            match read_number(e, j + 1, "a whole number for the setting"@) {
                Err(x) => Err(x),
                Ok((value, k)) => match with_setting(s, key, value) {
                    Some(s2) => Ok((s2, k)),
                    None => Err(refused(e, i, Refused::Setting)),
                },
            }
        },
    }
}

/// The list after `SETTINGS`.
pub open spec fn more_settings(e: Env, i: int, s: Settings) -> Out<Settings>
    decreases e.t.len() - i,
{
    match moved(e, i, read_setting(e, i, s)) {
        Err(x) => Err(x),
        Ok((s2, j)) => if tok_is(e, j, TokView::Comma) {
            more_settings(e, j + 1, s2)
        } else {
            Ok((s2, j))
        },
    }
}

/// `SETTINGS k = v [, k = v]*`, or no limits.
pub open spec fn read_settings(e: Env, i: int) -> Out<Settings> {
    if word_at(e, i, "SETTINGS"@) {
        more_settings(e, i + 1, no_settings())
    } else {
        Ok((no_settings(), i))
    }
}

/// The last value written for a key is the one that holds.
pub proof fn the_last_value_holds(s: Settings, key: Seq<char>, first: u64, second: u64)
    ensures
        with_setting(s, key, first) matches Some(once) ==> with_setting(once, key, second)
            == with_setting(s, key, second),
{
}

impl<'a> Parser<'a> {
    /// One `k = v`.
    fn setting(&mut self, s: Settings) -> (r: Result<Settings>)
        requires
            old(self).wf(),
        ensures
            goes(
                *old(self),
                *final(self),
                seen_plain(r),
                read_setting(old(self).env(), old(self).i as int, s),
            ),
            r is Ok ==> final(self).i > old(self).i,
    {
        let mut out = s;
        let at = self.at();
        let key = self.bare_ident("a setting name after SETTINGS")?;
        self.expect(&Tok::Op("="), "= and a value after the setting name")?;
        let value = self.small_number("a whole number for the setting")?;
        let key = key.as_str();
        if key.eq_ignore_ascii_case("max_execution_time") {
            out.max_execution_time = Some(value);
        } else if key.eq_ignore_ascii_case("max_memory_usage") {
            out.max_memory_usage = Some(value);
        } else if key.eq_ignore_ascii_case("max_result_rows") {
            out.max_result_rows = Some(value);
        } else if key.eq_ignore_ascii_case("max_delete_records") {
            out.max_delete_records = Some(value);
        } else {
            return Err(self.refuse_at(Refused::Setting, at));
        }
        Ok(out)
    }

    /// `SETTINGS k = v [, k = v]*`, or no limits.
    pub(crate) fn settings(&mut self) -> (r: Result<Settings>)
        requires
            old(self).wf(),
        ensures
            goes(
                *old(self),
                *final(self),
                seen_plain(r),
                read_settings(old(self).env(), old(self).i as int),
            ),
    {
        let mut out = Settings::default();
        if !self.eat_word("SETTINGS") {
            return Ok(out);
        }
        loop
            invariant
                self.wf(),
                self.env() == old(self).env(),
                self.t == old(self).t,
                self.depth == old(self).depth,
                self.i >= old(self).i,
                read_settings(old(self).env(), old(self).i as int) == more_settings(self.env(), self.i as int, out),
            decreases self.t@.len() - self.i,
        {
            out = self.setting(out)?;
            if !self.eat(&Tok::Comma) {
                return Ok(out);
            }
        }
    }
}

} // verus!
