//! What is read of the parts of a message.
use crate::request::{
    content_texts, part_of, part_texts, parts_of, LanguageModelToolResultContent, MessageContent,
};
use vstd::prelude::*;

verus! {

/// The text of a message is that of its parts, one behind the other.
pub proof fn lemma_texts_follow_one_another(a: Seq<MessageContent>, b: Seq<MessageContent>)
    ensures
        content_texts(a + b) == content_texts(a) + content_texts(b),
    decreases b.len(),
{
    if b.len() == 0 {
        assert(a + b =~= a);
    } else {
        lemma_texts_follow_one_another(a, b.drop_last());
        assert((a + b).drop_last() =~= a + b.drop_last());
        assert((a + b).last() == b.last());
        assert(content_texts(a + b) =~= content_texts(a) + content_texts(b));
    }
}

/// A message of one part says what that part says; one of none says nothing.
pub proof fn lemma_text_of_one_part(part: MessageContent)
    ensures
        content_texts(seq![part]) == part.text(),
        content_texts(Seq::empty()) == Seq::<char>::empty(),
{
    let one = seq![part];
    assert(one.drop_last() =~= Seq::empty());
    assert(content_texts(one.drop_last()) =~= Seq::empty());
    assert(one.last() == part);
    assert(Seq::<char>::empty() + part.text() =~= part.text());
}

/// The text of a result is that of its parts, one behind the other; images say nothing.
pub proof fn lemma_result_texts_follow_one_another(
    a: Seq<LanguageModelToolResultContent>,
    b: Seq<LanguageModelToolResultContent>,
)
    ensures
        part_texts(a + b) == part_texts(a) + part_texts(b),
    decreases b.len(),
{
    if b.len() == 0 {
        assert(a + b =~= a);
    } else {
        lemma_result_texts_follow_one_another(a, b.drop_last());
        assert((a + b).drop_last() =~= a + b.drop_last());
        assert((a + b).last() == b.last());
        assert(part_texts(a + b) =~= part_texts(a) + part_texts(b));
    }
}

pub proof fn lemma_text_of_one_result_part(part: LanguageModelToolResultContent)
    ensures
        part_texts(seq![part]) == match part {
            LanguageModelToolResultContent::Text(t) => t@,
            LanguageModelToolResultContent::Image(_) => Seq::empty(),
        },
{
    assert(seq![part].drop_last() =~= Seq::empty());
    assert(part_texts(Seq::empty()) =~= Seq::empty());
    if let LanguageModelToolResultContent::Text(t) = part {
        assert(part_texts(seq![part]) =~= t@);
    }
}

/// A list is read if and only if each of its values is, and then each gives a part.
pub proof fn lemma_list_is_read_value_by_value(values: Seq<Seq<char>>)
    ensures
        parts_of(values) is Ok <==> forall|i: int|
            0 <= i < values.len() ==> part_of(#[trigger] values[i]) is Some,
        parts_of(values) matches Ok(parts) ==> parts.len() == values.len() && forall|i: int|
            0 <= i < values.len() ==> part_of(#[trigger] values[i]) == Some(parts[i]),
    decreases values.len(),
{
    if values.len() > 0 {
        let before = values.drop_last();
        lemma_list_is_read_value_by_value(before);
        let n = values.len() - 1;
        assert(values[n] == values.last());
        assert forall|i: int| 0 <= i < n implies #[trigger] values[i] == before[i] by {}
        if parts_of(values) is Ok {
            assert forall|i: int| 0 <= i < values.len() implies part_of(#[trigger] values[i]) == Some(
                parts_of(values)->Ok_0[i],
            ) by {
                if i < n {
                    assert(part_of(before[i]) == Some(parts_of(before)->Ok_0[i]));
                }
            }
        } else if parts_of(before) is Err {
            let i = choose|i: int| 0 <= i < before.len() && !(part_of(#[trigger] before[i]) is Some);
            assert(values[i] == before[i]);
        }
    }
}

} // verus!
