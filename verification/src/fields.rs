//! Splitting text into tokens and finding a token by position or by label.
//!
//! Text is a sequence of bytes. A delimiter is one byte of a given set, so a
//! split never cuts a multi-byte character as long as the delimiters are
//! ASCII.

use crate::error::SampleError;
use vstd::prelude::*;

verus! {

/// The tokens of `text`: the runs of bytes between delimiters, empty runs
/// included. A text with n delimiters has n + 1 tokens.
pub open spec fn spec_split(text: Seq<u8>, delims: Seq<u8>) -> Seq<Seq<u8>>
    decreases text.len(),
{
    if text.len() == 0 {
        seq![Seq::<u8>::empty()]
    } else {
        let before = spec_split(text.drop_last(), delims);
        if delims.contains(text.last()) {
            before.push(Seq::<u8>::empty())
        } else {
            before.drop_last().push(before.last().push(text.last()))
        }
    }
}

/// `tokens` without its empty tokens, in the same order.
pub open spec fn spec_keep_nonempty(tokens: Seq<Seq<u8>>) -> Seq<Seq<u8>>
    decreases tokens.len(),
{
    if tokens.len() == 0 {
        Seq::<Seq<u8>>::empty()
    } else if tokens.last().len() > 0 {
        spec_keep_nonempty(tokens.drop_last()).push(tokens.last())
    } else {
        spec_keep_nonempty(tokens.drop_last())
    }
}

/// The tokens that `split` hands out.
pub open spec fn spec_tokens(text: Seq<u8>, delims: Seq<u8>, drop_empty: bool) -> Seq<Seq<u8>> {
    if drop_empty {
        spec_keep_nonempty(spec_split(text, delims))
    } else {
        spec_split(text, delims)
    }
}

/// What a vector of tokens holds, as sequences of bytes.
pub open spec fn token_views(tokens: Seq<Vec<u8>>) -> Seq<Seq<u8>> {
    Seq::new(tokens.len(), |i: int| tokens[i]@)
}

/// The position of the first token equal to `label`, or the number of
/// tokens where there is none.
pub open spec fn spec_first_occurrence(tokens: Seq<Seq<u8>>, label: Seq<u8>) -> int
    decreases tokens.len(),
{
    if tokens.len() == 0 {
        0
    } else if tokens[0] == label {
        0
    } else {
        1 + spec_first_occurrence(tokens.drop_first(), label)
    }
}

/// The token at `index`.
pub open spec fn spec_field_at(tokens: Seq<Seq<u8>>, index: int) -> Result<Seq<u8>, SampleError> {
    if 0 <= index < tokens.len() {
        Ok(tokens[index])
    } else {
        Err(SampleError::FieldMissing)
    }
}

/// The token `offset` places after the first occurrence of `label`.
pub open spec fn spec_field_after(tokens: Seq<Seq<u8>>, label: Seq<u8>, offset: int) -> Result<
    Seq<u8>,
    SampleError,
> {
    let at = spec_first_occurrence(tokens, label);
    if at >= tokens.len() {
        Err(SampleError::LabelNotFound)
    } else {
        spec_field_at(tokens, at + offset)
    }
}

/// A split has at least one token.
pub proof fn lemma_split_nonempty(text: Seq<u8>, delims: Seq<u8>)
    ensures
        spec_split(text, delims).len() >= 1,
    decreases text.len(),
{
    if text.len() > 0 {
        lemma_split_nonempty(text.drop_last(), delims);
    }
}

/// The first occurrence lies within the tokens or just behind them; where
/// it lies within, the label stands there and nowhere before.
pub proof fn lemma_first_occurrence(tokens: Seq<Seq<u8>>, label: Seq<u8>)
    ensures
        0 <= spec_first_occurrence(tokens, label) <= tokens.len(),
        spec_first_occurrence(tokens, label) < tokens.len() ==> tokens[spec_first_occurrence(
            tokens,
            label,
        )] == label,
        forall|i: int| 0 <= i < spec_first_occurrence(tokens, label) ==> tokens[i] != label,
    decreases tokens.len(),
{
    if tokens.len() > 0 && tokens[0] != label {
        let rest = tokens.drop_first();
        lemma_first_occurrence(rest, label);
        assert forall|i: int| 0 <= i < spec_first_occurrence(tokens, label) implies tokens[i]
            != label by {
            if i > 0 {
                assert(tokens[i] == rest[i - 1]);
            }
        }
    }
}

/// Whether two byte strings are the same.
pub fn bytes_equal(a: &[u8], b: &[u8]) -> (same: bool)
    ensures
        same == (a@ == b@),
{
    if a.len() != b.len() {
        return false;
    }
    let mut i: usize = 0;
    while i < a.len()
        invariant
            i <= a.len(),
            a.len() == b.len(),
            forall|k: int| 0 <= k < i ==> a@[k] == b@[k],
        decreases a.len() - i,
    {
        if a[i] != b[i] {
            return false;
        }
        i += 1;
    }
    assert(a@ =~= b@);
    true
}

/// Whether `byte` is one of `delims`.
pub fn is_delimiter(delims: &[u8], byte: u8) -> (found: bool)
    ensures
        found == delims@.contains(byte),
{
    let mut i: usize = 0;
    while i < delims.len()
        invariant
            i <= delims.len(),
            forall|k: int| 0 <= k < i ==> delims@[k] != byte,
        decreases delims.len() - i,
    {
        if delims[i] == byte {
            return true;
        }
        i += 1;
    }
    false
}

/// Splits `text` at every byte of `delims`. With `drop_empty` the empty
/// tokens, which runs of delimiters leave, are left out.
pub fn split(text: &[u8], delims: &[u8], drop_empty: bool) -> (tokens: Vec<Vec<u8>>)
    ensures
        token_views(tokens@) == spec_tokens(text@, delims@, drop_empty),
{
    let mut done: Vec<Vec<u8>> = Vec::new();
    let mut current: Vec<u8> = Vec::new();
    let mut i: usize = 0;
    assert(text@.take(0) =~= Seq::<u8>::empty());
    assert(token_views(done@) =~= Seq::<Seq<u8>>::empty());
    assert(spec_split(text@.take(0), delims@).drop_last() =~= Seq::<Seq<u8>>::empty());
    while i < text.len()
        invariant
            i <= text.len(),
            spec_split(text@.take(i as int), delims@).len() >= 1,
            current@ == spec_split(text@.take(i as int), delims@).last(),
            token_views(done@) == (if drop_empty {
                spec_keep_nonempty(spec_split(text@.take(i as int), delims@).drop_last())
            } else {
                spec_split(text@.take(i as int), delims@).drop_last()
            }),
        decreases text.len() - i,
    {
        let byte: u8 = text[i];
        let ghost before = spec_split(text@.take(i as int), delims@);
        let ghost after = spec_split(text@.take(i as int + 1), delims@);
        proof {
            assert(text@.take(i as int + 1).drop_last() =~= text@.take(i as int));
            assert(text@.take(i as int + 1).last() == byte);
        }
        if is_delimiter(delims, byte) {
            let ghost old_done = done@;
            proof {
                assert(after == before.push(Seq::<u8>::empty()));
                assert(after.drop_last() =~= before);
            }
            if !drop_empty || current.len() > 0 {
                done.push(current);
                proof {
                    assert(token_views(done@) =~= token_views(old_done).push(before.last()));
                    assert(before =~= before.drop_last().push(before.last()));
                }
            }
            current = Vec::new();
        } else {
            current.push(byte);
            proof {
                assert(after == before.drop_last().push(before.last().push(byte)));
                assert(after.drop_last() =~= before.drop_last());
            }
        }
        i += 1;
    }
    proof {
        assert(text@.take(i as int) =~= text@);
    }
    let ghost raw = spec_split(text@, delims@);
    let ghost old_done = done@;
    if !drop_empty || current.len() > 0 {
        done.push(current);
        proof {
            assert(token_views(done@) =~= token_views(old_done).push(raw.last()));
            assert(raw =~= raw.drop_last().push(raw.last()));
        }
    }
    done
}

/// The token at position `index`, counted from 0.
pub fn field_at(tokens: &Vec<Vec<u8>>, index: usize) -> (field: Result<&Vec<u8>, SampleError>)
    ensures
        match field {
            Ok(token) => spec_field_at(token_views(tokens@), index as int) == Ok::<
                Seq<u8>,
                SampleError,
            >(token@),
            Err(e) => spec_field_at(token_views(tokens@), index as int) == Err::<
                Seq<u8>,
                SampleError,
            >(e),
        },
        field is Ok <==> index < tokens.len(),
{
    if index < tokens.len() {
        Ok(&tokens[index])
    } else {
        Err(SampleError::FieldMissing)
    }
}

/// The position of the first token equal to `label`, or the number of
/// tokens where there is none.
pub fn first_occurrence(tokens: &Vec<Vec<u8>>, label: &[u8]) -> (at: usize)
    ensures
        at == spec_first_occurrence(token_views(tokens@), label@),
        at <= tokens.len(),
{
    let ghost all = token_views(tokens@);
    let mut i: usize = 0;
    assert(all.skip(0) =~= all);
    while i < tokens.len()
        invariant
            i <= tokens.len(),
            all == token_views(tokens@),
            spec_first_occurrence(all, label@) == i + spec_first_occurrence(
                all.skip(i as int),
                label@,
            ),
        decreases tokens.len() - i,
    {
        proof {
            assert(all.skip(i as int)[0] == tokens@[i as int]@);
            assert(all.skip(i as int).drop_first() =~= all.skip(i as int + 1));
        }
        if bytes_equal(tokens[i].as_slice(), label) {
            return i;
        }
        i += 1;
    }
    i
}

/// The token `offset` places after the first token equal to `label`:
/// `LabelNotFound` where no token equals the label, `FieldMissing` where the
/// text ends before the place asked for.
pub fn field_after<'a>(tokens: &'a Vec<Vec<u8>>, label: &[u8], offset: usize) -> (field: Result<
    &'a Vec<u8>,
    SampleError,
>)
    ensures
        match field {
            Ok(token) => spec_field_after(token_views(tokens@), label@, offset as int) == Ok::<
                Seq<u8>,
                SampleError,
            >(token@),
            Err(e) => spec_field_after(token_views(tokens@), label@, offset as int) == Err::<
                Seq<u8>,
                SampleError,
            >(e),
        },
{
    let at: usize = first_occurrence(tokens, label);
    if at >= tokens.len() {
        return Err(SampleError::LabelNotFound);
    }
    if offset >= tokens.len() - at {
        return Err(SampleError::FieldMissing);
    }
    Ok(&tokens[at + offset])
}

/// A text without a delimiter is one token.
pub proof fn lemma_split_plain(text: Seq<u8>, delims: Seq<u8>)
    requires
        forall|i: int| 0 <= i < text.len() ==> !delims.contains(#[trigger] text[i]),
    ensures
        spec_split(text, delims) == seq![text],
    decreases text.len(),
{
    if text.len() == 0 {
        assert(text =~= Seq::<u8>::empty());
    } else {
        let shorter = text.drop_last();
        assert forall|i: int| 0 <= i < shorter.len() implies !delims.contains(
            #[trigger] shorter[i],
        ) by {
            assert(shorter[i] == text[i]);
        }
        lemma_split_plain(shorter, delims);
        assert(!delims.contains(text[text.len() - 1]));
        assert(shorter.push(text.last()) =~= text);
        assert(spec_split(text, delims) =~= seq![text]);
    }
}

/// The tokens of a text with a delimiter in it are the tokens before the
/// delimiter followed by the tokens behind it.
pub proof fn lemma_split_concat(a: Seq<u8>, d: u8, b: Seq<u8>, delims: Seq<u8>)
    requires
        delims.contains(d),
    ensures
        spec_split(a + seq![d] + b, delims) == spec_split(a, delims) + spec_split(b, delims),
    decreases b.len(),
{
    let whole = a + seq![d] + b;
    if b.len() == 0 {
        assert(whole.drop_last() =~= a);
        assert(whole.last() == d);
        assert(spec_split(whole, delims) =~= spec_split(a, delims) + spec_split(b, delims));
    } else {
        let shorter = b.drop_last();
        lemma_split_concat(a, d, shorter, delims);
        lemma_split_nonempty(shorter, delims);
        assert(whole.drop_last() =~= a + seq![d] + shorter);
        assert(whole.last() == b.last());
        assert(spec_split(whole, delims) =~= spec_split(a, delims) + spec_split(b, delims));
    }
}

/// Dropping the empty tokens of two runs of tokens, then joining them, is
/// dropping those of the joined run.
pub proof fn lemma_keep_nonempty_concat(x: Seq<Seq<u8>>, y: Seq<Seq<u8>>)
    ensures
        spec_keep_nonempty(x + y) == spec_keep_nonempty(x) + spec_keep_nonempty(y),
    decreases y.len(),
{
    if y.len() == 0 {
        assert(x + y =~= x);
        assert(spec_keep_nonempty(x) + spec_keep_nonempty(y) =~= spec_keep_nonempty(x));
    } else {
        lemma_keep_nonempty_concat(x, y.drop_last());
        assert((x + y).drop_last() =~= x + y.drop_last());
        assert((x + y).last() == y.last());
        assert(spec_keep_nonempty(x + y) =~= spec_keep_nonempty(x) + spec_keep_nonempty(y));
    }
}

/// With the empty tokens dropped, a run of delimiters between two texts
/// leaves the tokens of the one followed by the tokens of the other,
/// however long the run is.
pub proof fn lemma_tokens_across_run(a: Seq<u8>, run: Seq<u8>, b: Seq<u8>, delims: Seq<u8>)
    requires
        run.len() > 0,
        forall|i: int| 0 <= i < run.len() ==> delims.contains(#[trigger] run[i]),
    ensures
        spec_tokens(a + run + b, delims, true) == spec_tokens(a, delims, true) + spec_tokens(
            b,
            delims,
            true,
        ),
    decreases run.len(),
{
    let d = run[0];
    let rest = run.drop_first();
    assert(delims.contains(run[0]));
    assert(a + run + b =~= a + seq![d] + (rest + b));
    lemma_split_concat(a, d, rest + b, delims);
    lemma_keep_nonempty_concat(spec_split(a, delims), spec_split(rest + b, delims));
    if rest.len() == 0 {
        assert(rest + b =~= b);
    } else {
        let nothing = Seq::<u8>::empty();
        assert forall|i: int| 0 <= i < rest.len() implies delims.contains(#[trigger] rest[i]) by {
            assert(rest[i] == run[i + 1]);
        }
        lemma_tokens_across_run(nothing, rest, b, delims);
        assert(nothing + rest + b =~= rest + b);
        assert(spec_split(nothing, delims) =~= seq![nothing]);
        assert(seq![nothing].drop_last() =~= Seq::<Seq<u8>>::empty());
        assert(spec_keep_nonempty(seq![nothing].drop_last()) =~= Seq::<Seq<u8>>::empty());
        assert(seq![nothing].last().len() == 0);
        assert(spec_keep_nonempty(seq![nothing]) =~= Seq::<Seq<u8>>::empty());
        assert(spec_tokens(nothing, delims, true) + spec_tokens(b, delims, true) =~= spec_tokens(
            b,
            delims,
            true,
        ));
    }
}

} // verus!
