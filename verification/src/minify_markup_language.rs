//! The executable minifier for markup-language text.

use vstd::prelude::*;
use vstd::string::StrSliceExecFns;
use vstd::string::StringExecFns;

use crate::charclass::space_char;
use crate::charclass::word_char;
use crate::model::elided_at;
use crate::model::fully_minified;
use crate::model::lemma_minify_fully_minified;
use crate::model::lemma_minify_len;
use crate::model::lemma_minify_seq_skip_step;
use crate::model::minify_seq;

verus! {

/// Minify the content obtained from a markup language file like XML or
/// HTML.
///
/// Every whitespace character (space, tab, carriage return, newline)
/// whose position is not followed by a word boundary is removed: a
/// whitespace character survives exactly when the character after it is
/// a word character (ASCII letter, digit or underscore). Runs of
/// whitespace between a `>` and a `<` therefore vanish entirely, while
/// a single space between two words is preserved. The surviving
/// characters keep their original order, the result is never longer
/// than the input, and a second minification finds nothing further to
/// remove.
pub fn minify(content: &str) -> (result: String)
    ensures
        result@ == minify_seq(content@),
        result@.len() <= content@.len(),
        fully_minified(result@),
{
    let n: usize = content.unicode_len();
    let mut result: String = String::new();
    let mut i: usize = 0;
    proof {
        assert(content@.skip(0) =~= content@);
        assert(Seq::<char>::empty() + minify_seq(content@) =~= minify_seq(content@));
    }
    while i < n
        invariant
            i <= n,
            n == content@.len(),
            minify_seq(content@) == result@ + minify_seq(content@.skip(i as int)),
        decreases n - i,
    {
        let c = content.get_char(i);
        let keep: bool = if !space_char(c) {
            true
        } else if i + 1 < n {
            word_char(content.get_char(i + 1))
        } else {
            false
        };
        proof {
            assert(keep == !elided_at(content@, i as int));
            lemma_minify_seq_skip_step(content@, i as int);
        }
        if keep {
            let piece = content.substring_char(i, i + 1);
            proof {
                assert(piece@ =~= seq![content@[i as int]]);
            }
            result.append(piece);
        }
        i = i + 1;
    }
    proof {
        assert(content@.skip(n as int) =~= Seq::<char>::empty());
        assert(result@ + Seq::<char>::empty() =~= result@);
        lemma_minify_len(content@);
        lemma_minify_fully_minified(content@);
    }
    result
}

} // verus!
