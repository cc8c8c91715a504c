//! What holds of every `info` line of a given shape.
use crate::chess::uci_text;
use crate::text::{find, find_from, lit, number_within, occurs_at, trimmed};
use crate::uci::proto::{
    first_space, info_of, info_words, message, read, read_words, Draft, InfoError, InfoView,
};
use crate::uci::score::Score;
use vstd::prelude::*;
use vstd::string::*;

verus! {

/// The bytes of a literal made of ASCII characters are its characters.
pub proof fn lemma_lit(s: &str)
    requires
        vstd::utf8::is_ascii_chars(s@),
    ensures
        lit(s) == Seq::new(s@.len(), |i: int| s@[i] as u8),
{
    vstd::string::is_ascii_spec_bytes(s);
}

/// The four words that `info` lines are read by, as bytes.
pub proof fn lemma_keywords()
    ensures
        lit("multipv") == seq![109u8, 117, 108, 116, 105, 112, 118],
        lit("score") == seq![115u8, 99, 111, 114, 101],
        lit("depth") == seq![100u8, 101, 112, 116, 104],
        lit("pv") == seq![112u8, 118],
{
    reveal_strlit("multipv");
    reveal_strlit("score");
    reveal_strlit("depth");
    reveal_strlit("pv");
    lemma_lit("multipv");
    lemma_lit("score");
    lemma_lit("depth");
    lemma_lit("pv");
    assert(lit("multipv") =~= seq![109u8, 117, 108, 116, 105, 112, 118]);
    assert(lit("score") =~= seq![115u8, 99, 111, 114, 101]);
    assert(lit("depth") =~= seq![100u8, 101, 112, 116, 104]);
    assert(lit("pv") =~= seq![112u8, 118]);
}

/// A word that an `info` line is not read by: it is passed over.
pub open spec fn plain(w: Seq<u8>) -> bool {
    w != lit("multipv") && w != lit("score") && w != lit("depth") && w != lit("pv")
}

/// Whether the words `w[i..j]` say nothing of score and line: each of them
/// is a word that is passed over, or is `depth` or `multipv` with a number
/// from 0 to 255 behind it.
pub open spec fn aside(w: Seq<Seq<u8>>, i: int, j: int) -> bool
    decreases j - i,
{
    if i >= j {
        i == j
    } else if w[i] == lit("multipv") || w[i] == lit("depth") {
        i + 1 < j && number_within(w[i + 1], 0, 255) is Some && aside(w, i + 2, j)
    } else {
        plain(w[i]) && aside(w, i + 1, j)
    }
}

/// What has been read once such words `w[i..j]` are behind: the last depth
/// and the last rank that they give are noted, and no line is being read.
pub open spec fn noted(w: Seq<Seq<u8>>, i: int, j: int, d: Draft) -> Draft
    decreases j - i,
{
    if i >= j {
        d
    } else if i + 1 < j && w[i] == lit("multipv") {
        noted(
            w,
            i + 2,
            j,
            Draft { multipv: number_within(w[i + 1], 0, 255).unwrap() as u8, in_line: false, ..d },
        )
    } else if i + 1 < j && w[i] == lit("depth") {
        noted(
            w,
            i + 2,
            j,
            Draft { depth: number_within(w[i + 1], 0, 255).unwrap() as u8, in_line: false, ..d },
        )
    } else {
        noted(w, i + 1, j, Draft { in_line: false, ..d })
    }
}

/// The moves that the words from `i` on denote.
pub open spec fn denoted(m: Seq<Option<Seq<u8>>>, i: int) -> Seq<Seq<u8>> {
    Seq::new((m.len() - i) as nat, |k: int| m[i + k].unwrap())
}

/// Words that say nothing of score and line leave both as they are.
pub proof fn lemma_aside(w: Seq<Seq<u8>>, m: Seq<Option<Seq<u8>>>, i: int, j: int, d: Draft)
    requires
        0 <= i <= j <= w.len(),
        aside(w, i, j),
        !d.in_line,
    ensures
        read_words(w, m, i, d) == read_words(w, m, j, noted(w, i, j, d)),
        noted(w, i, j, d).score == d.score,
        noted(w, i, j, d).line == d.line,
        !noted(w, i, j, d).in_line,
    decreases j - i,
{
    lemma_keywords();
    if i < j {
        if w[i] == lit("multipv") {
            let v = number_within(w[i + 1], 0, 255).unwrap();
            lemma_aside(w, m, i + 2, j, Draft { multipv: v as u8, in_line: false, ..d });
        } else if w[i] == lit("depth") {
            let v = number_within(w[i + 1], 0, 255).unwrap();
            lemma_aside(w, m, i + 2, j, Draft { depth: v as u8, in_line: false, ..d });
        } else {
            assert(plain(w[i]));
            lemma_aside(w, m, i + 1, j, Draft { in_line: false, ..d });
        }
    }
}

/// Moves up to the end of the line are all taken into the line.
pub proof fn lemma_moves_to_the_end(w: Seq<Seq<u8>>, m: Seq<Option<Seq<u8>>>, i: int, d: Draft)
    requires
        0 <= i <= w.len(),
        m.len() == w.len(),
        d.in_line,
        forall|j: int| i <= j < w.len() ==> (#[trigger] m[j]) is Some,
    ensures
        read_words(w, m, i, d) == Ok::<Draft, InfoError>(
            Draft { line: d.line + denoted(m, i), ..d },
        ),
    decreases w.len() - i,
{
    if i == w.len() {
        assert(d.line + denoted(m, i) =~= d.line);
    } else {
        assert(m[i] is Some);
        let d2 = Draft { line: d.line.push(m[i].unwrap()), ..d };
        lemma_moves_to_the_end(w, m, i + 1, d2);
        assert(d2.line + denoted(m, i + 1) =~= d.line + denoted(m, i));
    }
}

/// What the words before `pv` leave noted, where `w[a]` is `score`, a
/// score of `v` centipawns follows it and `w[b]` is `pv`.
pub open spec fn noted_before_line(w: Seq<Seq<u8>>, a: int, b: int, v: int) -> Draft {
    noted(
        w,
        a + 3,
        b,
        Draft { score: Some(Score::Cp(v as i16)), in_line: false, ..noted(w, 0, a, Draft::blank()) },
    )
}

/// An `info` line that gives a score in centipawns and then, after `pv`,
/// one move or more up to its end is read as a step of the analysis with
/// that score and those moves, its first move first. Before the score, and
/// between the score and `pv`, may stand `depth` and `multipv` with their
/// numbers, which are noted, and any words that are passed over.
///
/// `w` holds the words of the line and `m` beside each word the move that
/// it denotes; `score` is the word `a` and `pv` the word `b`.
pub proof fn score_and_line_are_read(
    w: Seq<Seq<u8>>,
    m: Seq<Option<Seq<u8>>>,
    a: int,
    b: int,
    v: int,
)
    requires
        m.len() == w.len(),
        0 <= a,
        a + 3 <= b,
        b + 1 < w.len(),
        aside(w, 0, a),
        w[a] == lit("score"),
        w[a + 1] == lit("cp"),
        number_within(w[a + 2], -32768, 32767) == Some(v),
        aside(w, a + 3, b),
        w[b] == lit("pv"),
        forall|j: int| b < j < w.len() ==> (#[trigger] m[j]) is Some,
    ensures
        read(w, m) == Ok::<InfoView, InfoError>(
            InfoView {
                multipv: noted_before_line(w, a, b, v).multipv,
                depth: noted_before_line(w, a, b, v).depth,
                score: Score::Cp(v as i16),
                line: denoted(m, b + 1),
            },
        ),
        denoted(m, b + 1).len() == w.len() - b - 1,
        denoted(m, b + 1)[0] == m[b + 1].unwrap(),
{
    lemma_keywords();
    let d0 = Draft::blank();
    lemma_aside(w, m, 0, a, d0);
    let dh = noted(w, 0, a, d0);
    let d1 = Draft { score: Some(Score::Cp(v as i16)), in_line: false, ..dh };
    assert(read_words(w, m, a, dh) == read_words(w, m, a + 3, d1));
    lemma_aside(w, m, a + 3, b, d1);
    let dm = noted(w, a + 3, b, d1);
    let d2 = Draft { line: Seq::empty(), in_line: true, ..dm };
    assert(read_words(w, m, b, dm) == read_words(w, m, b + 1, d2));
    lemma_moves_to_the_end(w, m, b + 1, d2);
    assert(d2.line + denoted(m, b + 1) =~= denoted(m, b + 1));
}

/// The line that an engine sends for a search of one line: `depth` and
/// its number, `score cp` and its number, `pv` and one move or more. It is
/// read as a step of the analysis with that depth, that score and those
/// moves, as the first line.
pub proof fn depth_score_and_line_are_read(
    depth: Seq<u8>,
    n: Seq<u8>,
    moves: Seq<Seq<u8>>,
    m: Seq<Option<Seq<u8>>>,
    reached: int,
    v: int,
)
    requires
        number_within(depth, 0, 255) == Some(reached),
        number_within(n, -32768, 32767) == Some(v),
        moves.len() > 0,
        m.len() == 6 + moves.len(),
        forall|j: int| 6 <= j < m.len() ==> (#[trigger] m[j]) is Some,
    ensures
        read(seq![lit("depth"), depth, lit("score"), lit("cp"), n, lit("pv")] + moves, m) == Ok::<
            InfoView,
            InfoError,
        >(
            InfoView {
                multipv: 1,
                depth: reached as u8,
                score: Score::Cp(v as i16),
                line: denoted(m, 6),
            },
        ),
        denoted(m, 6)[0] == m[6].unwrap(),
{
    lemma_keywords();
    let w = seq![lit("depth"), depth, lit("score"), lit("cp"), n, lit("pv")] + moves;
    assert(w[0] == lit("depth") && w[1] == depth && w[2] == lit("score") && w[3] == lit("cp")
        && w[4] == n && w[5] == lit("pv"));
    assert(aside(w, 2, 2));
    assert(aside(w, 0, 2));
    assert(aside(w, 5, 5));
    let d0 = Draft::blank();
    let dh = Draft { depth: reached as u8, in_line: false, ..d0 };
    assert(noted(w, 2, 2, dh) == dh);
    assert(noted(w, 0, 2, d0) == dh);
    let d1 = Draft { score: Some(Score::Cp(v as i16)), in_line: false, ..dh };
    assert(noted(w, 5, 5, d1) == d1);
    score_and_line_are_read(w, m, 2, 5, v);
}

/// The same of a line as it is received: where the words of the arguments
/// of `info` are of that shape and the words after `pv` are moves, the
/// line is read as a step of the analysis with that score and with the
/// moves that shakmaty reads them as.
pub proof fn info_with_score_and_line(args: Seq<u8>, a: int, b: int, v: int)
    requires
        info_words(args) == Some(args),
        0 <= a,
        a + 3 <= b,
        b + 1 < crate::text::words(args).len(),
        aside(crate::text::words(args), 0, a),
        crate::text::words(args)[a] == lit("score"),
        crate::text::words(args)[a + 1] == lit("cp"),
        number_within(crate::text::words(args)[a + 2], -32768, 32767) == Some(v),
        aside(crate::text::words(args), a + 3, b),
        crate::text::words(args)[b] == lit("pv"),
        forall|j: int|
            b < j < crate::text::words(args).len() ==> uci_text(
                #[trigger] crate::text::words(args)[j],
            ) is Some,
    ensures
        info_of(args) matches Ok(Some(info)) && info.score == Score::Cp(v as i16) && info.line.len()
            == crate::text::words(args).len() - b - 1 && info.line[0] == uci_text(
            crate::text::words(args)[b + 1],
        ).unwrap(),
{
    let w = crate::text::words(args);
    let m = crate::uci::proto::moves_of(w);
    assert forall|j: int| b < j < w.len() implies (#[trigger] m[j]) is Some by {
        assert(uci_text(w[j]) is Some);
    }
    score_and_line_are_read(w, m, a, b, v);
}

/// An `info` line that holds nothing but a remark after `string` is
/// dropped: it is read as no step of the analysis, and as no message.
pub proof fn remark_is_dropped(rest: Seq<u8>)
    ensures
        info_of(lit(" string ") + rest) == Ok::<Option<InfoView>, InfoError>(None),
        message(lit("info") + lit(" string ") + rest) is None,
{
    reveal_strlit("info");
    reveal_strlit(" string ");
    reveal_strlit("id");
    reveal_strlit("uciok");
    reveal_strlit("readyok");
    reveal_strlit("bestmove");
    lemma_lit("info");
    lemma_lit(" string ");
    lemma_lit("id");
    lemma_lit("uciok");
    lemma_lit("readyok");
    lemma_lit("bestmove");
    let pat = lit(" string ");
    let args = pat + rest;
    assert(args.subrange(0, pat.len() as int) =~= pat);
    assert(occurs_at(args, pat, 0));
    assert(find(args, pat) == Some(0int));
    assert(args.subrange(0, 0) =~= Seq::<u8>::empty());
    assert(trimmed(Seq::<u8>::empty()).len() == 0);
    assert(info_words(args) is None);
    let word = lit("info");
    assert(word =~= seq![105u8, 110, 102, 111]);
    let line = word + pat + rest;
    let sp = seq![32u8];
    assert(pat[0] == 32u8);
    assert forall|j: int| 0 <= j < 4 implies !occurs_at(line, sp, j) by {
        if occurs_at(line, sp, j) {
            assert(line.subrange(j, j + 1)[0] == sp[0]);
            assert(line[j] == word[j]);
        }
    }
    assert(line.subrange(4, 5) =~= sp);
    assert(occurs_at(line, sp, 4));
    assert(find_from(line, sp, 4) == Some(4int));
    assert(find_from(line, sp, 3) == Some(4int));
    assert(find_from(line, sp, 2) == Some(4int));
    assert(find_from(line, sp, 1) == Some(4int));
    assert(find_from(line, sp, 0) == Some(4int));
    assert(first_space(line) == 4);
    assert(line.subrange(0, 4) =~= word);
    assert(line.subrange(4, line.len() as int) =~= args);
    assert(trimmed(word) =~= word) by {
        crate::text::lemma_skip_spaces(word, 0);
        assert(crate::text::skip_spaces(word, 0) == 0);
        assert(crate::text::cut_spaces(word, 0, 4) == 4);
        assert(word.subrange(0, 4) =~= word);
    }
    assert(lit("id").len() == 2);
    assert(lit("uciok").len() == 5);
    assert(lit("readyok").len() == 7);
    assert(lit("bestmove").len() == 8);
}

} // verus!
