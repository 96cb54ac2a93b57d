//! Compact texts of several reports, and the request text built from them.

use vstd::prelude::*;
use crate::agents::globals::{PROMPT, TOKEN_MODEL};
use crate::decimal::{nat_text, number_chars};
use crate::parser::interface::{compact_of, parse_profile_data};
use crate::parser::types::{ParsingFailure, ProfileParsingError};
use crate::text::push_chars;

verus! {

/// The texts of `v`, in order.
pub open spec fn string_texts(v: Seq<String>) -> Seq<Seq<char>> {
    Seq::new(v.len(), |i: int| v[i]@)
}

/// The compact texts of the contents of several report files, in order; the
/// first content that does not parse decides the failure.
pub open spec fn compact_of_each(contents: Seq<Seq<char>>) -> Result<
    Seq<Seq<char>>,
    ParsingFailure,
>
    decreases contents.len(),
{
    if contents.len() == 0 {
        Ok(Seq::empty())
    } else {
        match compact_of_each(contents.drop_last()) {
            Err(e) => Err(e),
            Ok(done) => match compact_of(contents.last()) {
                Err(e) => Err(e),
                Ok(text) => Ok(done.push(text)),
            },
        }
    }
}

/// Once the first `n` contents have failed, the failure stands whatever
/// follows.
pub proof fn lemma_compact_of_each_failure(contents: Seq<Seq<char>>, n: int)
    requires
        0 <= n <= contents.len(),
        compact_of_each(contents.take(n)) is Err,
    ensures
        compact_of_each(contents) == compact_of_each(contents.take(n)),
    decreases contents.len() - n,
{
    if n == contents.len() {
        assert(contents.take(n) == contents);
    } else {
        assert(contents.drop_last().take(n) == contents.take(n));
        lemma_compact_of_each_failure(contents.drop_last(), n);
    }
}

/// Parses, filters and renders the content of each report file, in order,
/// and stops at the first that fails.
pub fn collect_parser_results(profile_contents: Vec<String>) -> (r: Result<
    Vec<String>,
    ProfileParsingError,
>)
    ensures
        match r {
            Ok(results) => compact_of_each(string_texts(profile_contents@)) == Ok::<
                Seq<Seq<char>>,
                ParsingFailure,
            >(string_texts(results@)),
            Err(e) => compact_of_each(string_texts(profile_contents@)) == Err::<
                Seq<Seq<char>>,
                ParsingFailure,
            >(e@),
        },
{
    let ghost all = string_texts(profile_contents@);
    let mut results: Vec<String> = Vec::new();
    let mut i: usize = 0;
    assert(all.take(0) == Seq::<Seq<char>>::empty());
    assert(string_texts(results@) == Seq::<Seq<char>>::empty());
    while i < profile_contents.len()
        invariant
            i <= profile_contents.len(),
            all == string_texts(profile_contents@),
            compact_of_each(all.take(i as int)) == Ok::<Seq<Seq<char>>, ParsingFailure>(
                string_texts(results@),
            ),
        decreases profile_contents.len() - i,
    {
        let ghost before = results@;
        proof {
            assert(all.take(i + 1).drop_last() == all.take(i as int));
            assert(all.take(i + 1).last() == profile_contents@[i as int]@);
        }
        match parse_profile_data(profile_contents[i].as_str()) {
            Ok(text) => {
                results.push(text);
                assert(string_texts(results@) == string_texts(before).push(text@));
            },
            Err(e) => {
                proof {
                    lemma_compact_of_each_failure(all, i + 1);
                }
                return Err(e);
            },
        }
        i += 1;
    }
    assert(all.take(profile_contents.len() as int) == all);
    Ok(results)
}

/// The part of the request that holds one report: a heading with the
/// report's number, counted from one, then its text.
pub open spec fn prompt_section(index: nat, profile: Seq<char>) -> Seq<char> {
    "\n"@ + "PROFILE NUMBER: "@ + nat_text(index + 1) + " \n"@ + profile
}

/// The request: the instructions, then one section for each report.
pub open spec fn prompt_of(profiles: Seq<Seq<char>>) -> Seq<char>
    decreases profiles.len(),
{
    if profiles.len() == 0 {
        PROMPT@
    } else {
        prompt_of(profiles.drop_last()) + prompt_section(
            (profiles.len() - 1) as nat,
            profiles.last(),
        )
    }
}

/// Builds the request from the compact texts of the reports.
pub fn structure_prompt(all_profile_strings: Vec<String>) -> (prompt: String)
    ensures
        prompt@ == prompt_of(string_texts(all_profile_strings@)),
{
    let ghost all = string_texts(all_profile_strings@);
    let mut prompt = String::from_str(PROMPT);
    let mut i: usize = 0;
    assert(all.take(0) == Seq::<Seq<char>>::empty());
    while i < all_profile_strings.len()
        invariant
            i <= all_profile_strings.len(),
            all == string_texts(all_profile_strings@),
            prompt@ == prompt_of(all.take(i as int)),
        decreases all_profile_strings.len() - i,
    {
        let ghost before = prompt@;
        proof {
            assert(all.take(i + 1).drop_last() == all.take(i as int));
            assert(all.take(i + 1).last() == all_profile_strings@[i as int]@);
        }
        prompt.append("\n");
        prompt.append("PROFILE NUMBER: ");
        let number = number_chars((i + 1) as u64);
        push_chars(&mut prompt, number.as_slice());
        prompt.append(" \n");
        prompt.append(all_profile_strings[i].as_str());
        assert(prompt@ == before + prompt_section(i as nat, all_profile_strings@[i as int]@));
        i += 1;
    }
    assert(all.take(all_profile_strings.len() as int) == all);
    prompt
}

/// Number of tokens into which the tokenizer that `tiktoken_rs` assigns to
/// `model` splits `text`; none where the crate assigns no tokenizer to the
/// model or the tokenizer fails on the text.
pub uninterp spec fn tokens_in(model: Seq<char>, text: Seq<char>) -> Option<usize>;

/// Calls `tiktoken_rs::bpe_for_model` for the tokenizer of `model`, then
/// `CoreBPE::encode` on `text` with every special token of that tokenizer
/// allowed, and counts the tokens that come back. Both calls depend on their
/// arguments and on the vocabulary built into the crate alone, so the count
/// is a fixed function of `model` and `text`; nothing more is claimed of it.
/// An error of either call gives none.
#[verifier::external_body]
fn text_token_count(model: &str, text: &str) -> (count: Option<usize>)
    ensures
        count == tokens_in(model@, text@),
{
    let bpe = tiktoken_rs::bpe_for_model(model).ok()?;
    let found = bpe.encode(text, &bpe.special_tokens()).ok()?;
    Some(found.0.len())
}

/// The sum of `counts`, none where a count is missing.
pub open spec fn sum_of_counts(counts: Seq<Option<usize>>) -> Option<nat>
    decreases counts.len(),
{
    if counts.len() == 0 {
        Some(0)
    } else {
        match (sum_of_counts(counts.drop_last()), counts.last()) {
            (Some(sum), Some(count)) => Some((sum + count) as nat),
            _ => None,
        }
    }
}

/// The sum of `counts` as a machine number: none where a count is missing or
/// the sum does not fit.
pub open spec fn total_of_counts(counts: Seq<Option<usize>>) -> Option<usize> {
    match sum_of_counts(counts) {
        Some(sum) => if sum <= usize::MAX {
            Some(sum as usize)
        } else {
            None
        },
        None => None,
    }
}

/// Once a count is missing among the first `n`, the sum is missing.
pub proof fn lemma_sum_of_counts_missing(counts: Seq<Option<usize>>, n: int)
    requires
        0 <= n <= counts.len(),
        sum_of_counts(counts.take(n)) is None,
    ensures
        sum_of_counts(counts) is None,
    decreases counts.len() - n,
{
    if n == counts.len() {
        assert(counts.take(n) == counts);
    } else {
        assert(counts.drop_last().take(n) == counts.take(n));
        lemma_sum_of_counts_missing(counts.drop_last(), n);
    }
}

/// The sum grows with each count.
pub proof fn lemma_sum_of_counts_grows(counts: Seq<Option<usize>>, n: int)
    requires
        0 <= n <= counts.len(),
        sum_of_counts(counts) is Some,
    ensures
        sum_of_counts(counts.take(n)) is Some,
        sum_of_counts(counts.take(n))->0 <= sum_of_counts(counts)->0,
    decreases counts.len() - n,
{
    if n == counts.len() {
        assert(counts.take(n) == counts);
    } else {
        assert(counts.drop_last().take(n) == counts.take(n));
        lemma_sum_of_counts_grows(counts.drop_last(), n);
    }
}

/// Adds up the token counts of several texts.
pub fn total_token_count(counts: &[Option<usize>]) -> (total: Option<usize>)
    ensures
        total == total_of_counts(counts@),
{
    let mut total: usize = 0;
    let mut i: usize = 0;
    assert(counts@.take(0) == Seq::<Option<usize>>::empty());
    while i < counts.len()
        invariant
            i <= counts.len(),
            sum_of_counts(counts@.take(i as int)) == Some(total as nat),
        decreases counts.len() - i,
    {
        proof {
            assert(counts@.take(i + 1).drop_last() == counts@.take(i as int));
            assert(counts@.take(i + 1).last() == counts@[i as int]);
        }
        let count = match counts[i] {
            Some(count) => count,
            None => {
                proof {
                    lemma_sum_of_counts_missing(counts@, i + 1);
                }
                return None;
            },
        };
        total = match total.checked_add(count) {
            Some(sum) => sum,
            None => {
                proof {
                    if sum_of_counts(counts@) is Some {
                        lemma_sum_of_counts_grows(counts@, i + 1);
                    }
                }
                return None;
            },
        };
        i += 1;
    }
    assert(counts@.take(counts.len() as int) == counts@);
    Some(total)
}

/// The text of a message: its content, and nothing where it has none.
pub open spec fn content_text(content: Option<String>) -> Seq<char> {
    match content {
        Some(text) => text@,
        None => Seq::empty(),
    }
}

/// The token count of each message content under the tokenizer of
/// `TOKEN_MODEL`.
pub open spec fn token_counts_of(contents: Seq<Option<String>>) -> Seq<Option<usize>> {
    Seq::new(contents.len(), |i: int| tokens_in(TOKEN_MODEL@, content_text(contents[i])))
}

/// Counts the tokens of the contents of several messages, a message without
/// content counting as an empty text: the sum of the counts, none where the
/// tokenizer gives no count for a content or the sum does not fit.
pub fn count_tokens(contents: &[Option<String>]) -> (total: Option<usize>)
    ensures
        total == total_of_counts(token_counts_of(contents@)),
{
    let mut counts: Vec<Option<usize>> = Vec::new();
    let mut i: usize = 0;
    while i < contents.len()
        invariant
            i <= contents.len(),
            counts@ == token_counts_of(contents@).take(i as int),
        decreases contents.len() - i,
    {
        let count = match &contents[i] {
            Some(text) => text_token_count(TOKEN_MODEL, text.as_str()),
            None => text_token_count(TOKEN_MODEL, ""),
        };
        proof {
            reveal_strlit("");
            assert(""@ == Seq::<char>::empty());
        }
        counts.push(count);
        assert(counts@ == token_counts_of(contents@).take(i + 1));
        i += 1;
    }
    assert(token_counts_of(contents@).take(contents.len() as int) == token_counts_of(contents@));
    total_token_count(counts.as_slice())
}

} // verus!
