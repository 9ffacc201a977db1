//! The model side of the analysis: which models are offered, what a call costs, and the
//! pieces of a ranking request that do not depend on the network.
use vstd::prelude::*;
use base64::Engine;
use vstd::string::*;
use crate::text::{chars_of, decimal, push_decimal, same_text, str_equal, trimmed, trim_bounds};

verus! {

// ---------------------------------------------------------------------------------------------
// Prices. Every list price is a whole number of US cents per million tokens, so a call's cost
// is computed exactly, in units of 10⁻⁸ USD (token × cent / 10⁶).

/// A model's list price, in US cents per million tokens.
#[derive(Debug, Clone, Copy, PartialEq, Eq, Structural)]
pub struct ModelPrice {
    pub input_cents_per_million: u64,
    pub cached_input_cents_per_million: u64,
    pub output_cents_per_million: u64,
}

/// The price list: input, cached input and output price of each known model, in cents per
/// million tokens. `gpt-5.6` is another name of `gpt-5.6-sol`.
pub open spec fn price_table(model: Seq<char>) -> Option<(nat, nat, nat)> {
    if model == "gpt-6-astra"@ {
        Some((1000, 100, 5000))
    } else if model == "gpt-5.6-sol"@ || model == "gpt-5.6"@ {
        Some((400, 40, 2000))
    } else if model == "gpt-5.6-terra"@ {
        Some((200, 20, 1200))
    } else if model == "gpt-5.6-luna"@ {
        Some((20, 2, 120))
    } else {
        None
    }
}

/// The price as a triple.
pub open spec fn price_triple(p: ModelPrice) -> (nat, nat, nat) {
    (
        p.input_cents_per_million as nat,
        p.cached_input_cents_per_million as nat,
        p.output_cents_per_million as nat,
    )
}

fn price(input: u64, cached: u64, output: u64) -> (p: ModelPrice)
    ensures
        price_triple(p) == (input as nat, cached as nat, output as nat),
{
    ModelPrice {
        input_cents_per_million: input,
        cached_input_cents_per_million: cached,
        output_cents_per_million: output,
    }
}

/// The list price of `model`, if it is a known model.
pub fn price_for(model: &str) -> (r: Option<ModelPrice>)
    ensures
        match r {
            Some(p) => price_table(model@) == Some(price_triple(p)),
            None => price_table(model@) is None,
        },
{
    if str_equal(model, "gpt-6-astra") {
        Some(price(1000, 100, 5000))
    } else if str_equal(model, "gpt-5.6-sol") || str_equal(model, "gpt-5.6") {
        Some(price(400, 40, 2000))
    } else if str_equal(model, "gpt-5.6-terra") {
        Some(price(200, 20, 1200))
    } else if str_equal(model, "gpt-5.6-luna") {
        Some(price(20, 2, 120))
    } else {
        None
    }
}

/// The cost of a call in units of 10⁻⁸ USD: uncached input tokens (input minus cached, never
/// below zero) at the input price, cached tokens at the cached price, output tokens at the
/// output price. An unknown model costs nothing.
pub open spec fn cost_units(model: Seq<char>, input: nat, cached: nat, output: nat) -> nat {
    match price_table(model) {
        Some((pi, pc, po)) => {
            let uncached: nat = if input >= cached { (input - cached) as nat } else { 0 };
            uncached * pi + cached * pc + output * po
        },
        None => 0,
    }
}

proof fn lemma_product_bound(a: u64, p: u64)
    requires
        p <= 5000,
    ensures
        a as int * p as int <= u64::MAX as int * 5000,
{
    assert(a as int * p as int <= u64::MAX as int * 5000) by (nonlinear_arith)
        requires
            a as int <= u64::MAX as int,
            0 <= p <= 5000,
    ;
}

/// `gpt-5.6` is priced exactly as `gpt-5.6-sol`.
pub proof fn lemma_sol_alias()
    ensures
        price_table("gpt-5.6"@) == price_table("gpt-5.6-sol"@),
        price_table("gpt-5.6"@) is Some,
{
    reveal_strlit("gpt-5.6");
    reveal_strlit("gpt-6-astra");
    reveal_strlit("gpt-5.6-sol");
    assert("gpt-5.6"@ != "gpt-6-astra"@) by {
        assert("gpt-5.6"@[4] != "gpt-6-astra"@[4]);
    }
    assert("gpt-5.6-sol"@ != "gpt-6-astra"@) by {
        assert("gpt-5.6-sol"@[4] != "gpt-6-astra"@[4]);
    }
}

/// A call never costs less for using more tokens of any kind, and uncached input is never
/// cheaper than cached input (each model's cached price is below its input price).
pub proof fn lemma_cost_monotone(model: Seq<char>, input: nat, cached: nat, output: nat, more: nat)
    ensures
        cost_units(model, input, cached, output) <= cost_units(model, input + more, cached, output),
        cost_units(model, input, cached, output) <= cost_units(model, input, cached, output + more),
        input >= cached + more ==> cost_units(model, input, cached + more, output) <= cost_units(
            model,
            input,
            cached,
            output,
        ),
{
    match price_table(model) {
        Some((pi, pc, po)) => {
            assert(pc <= pi);
            let u: nat = if input >= cached { (input - cached) as nat } else { 0 };
            let u2: nat = if input + more >= cached { (input + more - cached) as nat } else { 0 };
            assert(u * pi <= u2 * pi) by (nonlinear_arith)
                requires
                    u <= u2,
            ;
            assert(output * po <= (output + more) * po) by (nonlinear_arith);
            if input >= cached + more {
                let u3: nat = (input - cached - more) as nat;
                assert(u3 * pi + (cached + more) * pc <= u * pi + cached * pc) by (nonlinear_arith)
                    requires
                        u3 + more == u,
                        pc <= pi,
            ;
            }
        },
        None => {},
    }
}

/// The estimated cost of a call, in units of 10⁻⁸ USD (divide by 10⁸ for dollars).
pub fn estimate_cost_units(model: &str, input_tokens: u64, cached_input_tokens: u64, output_tokens: u64) -> (r: u128)
    ensures
        r as nat == cost_units(model@, input_tokens as nat, cached_input_tokens as nat, output_tokens as nat),
{
    match price_for(model) {
        None => 0,
        Some(p) => {
            assert(p.input_cents_per_million <= 5000 && p.cached_input_cents_per_million <= 5000
                && p.output_cents_per_million <= 5000);
            let uncached = input_tokens.saturating_sub(cached_input_tokens);
            proof {
                lemma_product_bound(uncached, p.input_cents_per_million);
                lemma_product_bound(cached_input_tokens, p.cached_input_cents_per_million);
                lemma_product_bound(output_tokens, p.output_cents_per_million);
            }
            let a = uncached as u128 * p.input_cents_per_million as u128;
            let b = cached_input_tokens as u128 * p.cached_input_cents_per_million as u128;
            let c = output_tokens as u128 * p.output_cents_per_million as u128;
            a + b + c
        },
    }
}


// ---------------------------------------------------------------------------------------------
// Model list.

/// A model offered in the settings.
#[derive(Debug, Clone)]
pub struct ModelOption {
    pub id: String,
    pub available: bool,
    pub experimental: bool,
    pub recommended: bool,
}

/// The recommended models, in the order they are offered.
pub open spec fn recommended_model(k: int) -> Seq<char> {
    if k == 0 {
        "gpt-6-astra"@
    } else if k == 1 {
        "gpt-5.6-sol"@
    } else if k == 2 {
        "gpt-5.6-terra"@
    } else {
        "gpt-5.6-luna"@
    }
}

/// How many models are recommended.
pub const RECOMMENDED_COUNT: usize = 4;

/// The model recommended by default (the third of the list).
pub const DEFAULT_MODEL_INDEX: usize = 2;

/// `id` is one of the recommended models.
pub open spec fn is_recommended(id: Seq<char>) -> bool {
    exists|k: int| 0 <= k < RECOMMENDED_COUNT && #[trigger] recommended_model(k) == id
}

/// The recommended model ids, in order.
pub fn recommended_models() -> (r: Vec<String>)
    ensures
        r.len() == RECOMMENDED_COUNT,
        forall|k: int| 0 <= k < RECOMMENDED_COUNT ==> #[trigger] r@[k]@ == recommended_model(k),
{
    let mut r: Vec<String> = Vec::new();
    r.push("gpt-6-astra".to_owned());
    r.push("gpt-5.6-sol".to_owned());
    r.push("gpt-5.6-terra".to_owned());
    r.push("gpt-5.6-luna".to_owned());
    r
}

/// `a` comes before `b` in code-point order (the order of `String`'s `cmp`, as UTF-8 keeps
/// code-point order).
pub open spec fn lex_lt(a: Seq<char>, b: Seq<char>) -> bool
    decreases a.len(),
{
    if a.len() == 0 {
        b.len() > 0
    } else if b.len() == 0 {
        false
    } else if a[0] != b[0] {
        a[0] < b[0]
    } else {
        lex_lt(a.drop_first(), b.drop_first())
    }
}

proof fn lemma_lex_irreflexive(a: Seq<char>)
    ensures
        !lex_lt(a, a),
    decreases a.len(),
{
    if a.len() > 0 {
        lemma_lex_irreflexive(a.drop_first());
    }
}

proof fn lemma_lex_transitive(a: Seq<char>, b: Seq<char>, c: Seq<char>)
    requires
        lex_lt(a, b),
        lex_lt(b, c),
    ensures
        lex_lt(a, c),
    decreases a.len(),
{
    if a.len() > 0 && b.len() > 0 && c.len() > 0 && a[0] == b[0] && b[0] == c[0] {
        lemma_lex_transitive(a.drop_first(), b.drop_first(), c.drop_first());
    }
}

proof fn lemma_lex_total(a: Seq<char>, b: Seq<char>)
    requires
        a != b,
    ensures
        lex_lt(a, b) || lex_lt(b, a),
    decreases a.len(),
{
    if a.len() > 0 && b.len() > 0 && a[0] == b[0] {
        if a.drop_first() == b.drop_first() {
            assert(a =~= seq![a[0]] + a.drop_first());
            assert(b =~= seq![b[0]] + b.drop_first());
        }
        lemma_lex_total(a.drop_first(), b.drop_first());
    } else if a.len() == 0 && b.len() == 0 {
        assert(a =~= b);
    }
}

/// A strictly sorted list of ids lists no id twice: no experimental model is offered twice.
pub proof fn lemma_sorted_ids_distinct(s: Seq<Seq<char>>)
    requires
        strictly_sorted(s),
    ensures
        forall|i: int, j: int| 0 <= i < j < s.len() ==> #[trigger] s[i] != #[trigger] s[j],
{
    assert forall|i: int, j: int| 0 <= i < j < s.len() implies #[trigger] s[i] != #[trigger] s[j] by {
        if s[i] == s[j] {
            lemma_lex_irreflexive(s[i]);
        }
    }
}

/// Whether `a` comes before `b` in code-point order.
fn lex_less(a: &Vec<char>, b: &Vec<char>) -> (r: bool)
    ensures
        r == lex_lt(a@, b@),
{
    let mut i: usize = 0;
    assert(a@.skip(0) =~= a@);
    assert(b@.skip(0) =~= b@);
    while i < a.len() && i < b.len() && a[i] == b[i]
        invariant
            i <= a.len(),
            i <= b.len(),
            lex_lt(a@.skip(i as int), b@.skip(i as int)) == lex_lt(a@, b@),
        decreases a.len() - i,
    {
        assert(a@.skip(i as int).drop_first() =~= a@.skip(i + 1));
        assert(b@.skip(i as int).drop_first() =~= b@.skip(i + 1));
        i = i + 1;
    }
    if i == a.len() {
        i < b.len()
    } else if i == b.len() {
        false
    } else {
        a[i] < b[i]
    }
}

/// `id` starts with `gpt-` and is not one of the recommended models.
pub open spec fn is_experimental_candidate(id: Seq<char>) -> bool {
    id.len() >= 4 && id.take(4) == "gpt-"@ && !is_recommended(id)
}

/// The ids in `s`, each ascending and distinct.
pub open spec fn strictly_sorted(s: Seq<Seq<char>>) -> bool {
    forall|i: int, j: int| 0 <= i < j < s.len() ==> lex_lt(#[trigger] s[i], #[trigger] s[j])
}

fn is_recommended_id(id: &str) -> (r: bool)
    ensures
        r == is_recommended(id@),
{
    let rec = recommended_models();
    let mut k: usize = 0;
    while k < rec.len()
        invariant
            k <= rec.len() == RECOMMENDED_COUNT,
            forall|j: int| 0 <= j < RECOMMENDED_COUNT ==> #[trigger] rec@[j]@ == recommended_model(j),
            forall|j: int| 0 <= j < k ==> recommended_model(j) != id@,
        decreases rec.len() - k,
    {
        if str_equal(rec[k].as_str(), id) {
            assert(recommended_model(k as int) == id@);
            return true;
        }
        k = k + 1;
    }
    false
}

fn is_experimental(id: &str) -> (r: bool)
    ensures
        r == is_experimental_candidate(id@),
{
    let v = chars_of(id);
    let prefix = chars_of("gpt-");
    if v.len() < 4 {
        return false;
    }
    let mut head: Vec<char> = Vec::new();
    let mut i: usize = 0;
    while i < 4
        invariant
            4 <= v.len(),
            i <= 4,
            head@ == v@.take(i as int),
        decreases 4 - i,
    {
        head.push(v[i]);
        assert(head@ =~= v@.take(i + 1));
        i = i + 1;
    }
    if !same_text(&head, &prefix) {
        assert(prefix@.len() == 4 ==> head@ != prefix@ ==> id@.take(4) != "gpt-"@);
        return false;
    }
    !is_recommended_id(id)
}

/// The views of a list of strings.
pub open spec fn texts(s: Seq<String>) -> Seq<Seq<char>> {
    s.map_values(|x: String| x@)
}

/// The experimental models among `available`, ascending and without repeats.
fn experimental_ids(available: &Vec<String>) -> (r: Vec<String>)
    ensures
        strictly_sorted(texts(r@)),
        forall|k: int| 0 <= k < r.len() ==> is_experimental_candidate(#[trigger] r@[k]@) && texts(available@).contains(r@[k]@),
        forall|id: Seq<char>| texts(available@).contains(id) && is_experimental_candidate(id) ==> texts(r@).contains(id),
{
    let mut r: Vec<String> = Vec::new();
    let mut i: usize = 0;
    while i < available.len()
        invariant
            i <= available.len(),
            strictly_sorted(texts(r@)),
            forall|k: int| 0 <= k < r.len() ==> is_experimental_candidate(#[trigger] r@[k]@) && texts(available@).contains(r@[k]@),
            forall|id: Seq<char>| texts(available@.take(i as int)).contains(id) && is_experimental_candidate(id) ==> texts(r@).contains(id),
        decreases available.len() - i,
    {
        let id = &available[i];
        let ghost r_before = texts(r@);
        assert(texts(available@)[i as int] == id@);
        if is_experimental(id.as_str()) {
            let idv = chars_of(id.as_str());
            let mut j: usize = 0;
            while j < r.len() && lex_less(&chars_of(r[j].as_str()), &idv)
                invariant
                    j <= r.len(),
                    idv@ == id@,
                    forall|q: int| 0 <= q < j ==> lex_lt(#[trigger] r@[q]@, id@),
                decreases r.len() - j,
            {
                j = j + 1;
            }
            let present = j < r.len() && same_text(&chars_of(r[j].as_str()), &idv);
            if !present {
                let ghost old_r = r@;
                proof {
                    if j < r.len() {
                        lemma_lex_total(r@[j as int]@, id@);
                    }
                }
                r.insert(j, id.clone());
                assert(texts(r@) =~= texts(old_r).insert(j as int, id@));
                assert forall|a: int, b: int| 0 <= a < b < r.len() implies lex_lt(
                    #[trigger] texts(r@)[a],
                    #[trigger] texts(r@)[b],
                ) by {
                    let t = texts(old_r);
                    if b == j {
                    } else if a == j {
                        assert(lex_lt(id@, t[j as int]));
                        if b - 1 > j {
                            lemma_lex_transitive(id@, t[j as int], t[b - 1]);
                        }
                    } else if a < j && b > j {
                        assert(lex_lt(t[a], id@));
                        assert(lex_lt(id@, t[j as int]));
                        lemma_lex_transitive(t[a], id@, t[j as int]);
                        if b - 1 > j {
                            lemma_lex_transitive(t[a], t[j as int], t[b - 1]);
                        }
                    }
                }
                assert(texts(r@)[j as int] == id@);
                assert forall|x: Seq<char>| r_before.contains(x) implies texts(r@).contains(x) by {
                    let q = choose|q: int| 0 <= q < r_before.len() && #[trigger] r_before[q] == x;
                    if q < j {
                        assert(texts(r@)[q] == x);
                    } else {
                        assert(texts(r@)[q + 1] == x);
                    }
                }
            } else {
                assert(texts(r@)[j as int] == id@);
            }
            assert(texts(r@).contains(id@));
        }
        assert forall|x: Seq<char>| texts(available@.take(i + 1)).contains(x) && is_experimental_candidate(x) implies texts(r@).contains(x) by {
            let q = choose|q: int| 0 <= q < texts(available@.take(i + 1)).len() && #[trigger] texts(available@.take(i + 1))[q] == x;
            if q < i {
                assert(texts(available@.take(i as int))[q] == x);
                assert(r_before.contains(x));
            } else {
                assert(x == id@);
            }
        }
        i = i + 1;
    }
    assert(available@.take(available.len() as int) =~= available@);
    r
}


/// The ids of a list of model options.
pub open spec fn option_ids(s: Seq<ModelOption>) -> Seq<Seq<char>> {
    s.map_values(|o: ModelOption| o.id@)
}

/// Whether `id` is among `list`.
fn contains_text(list: &Vec<String>, id: &str) -> (r: bool)
    ensures
        r == texts(list@).contains(id@),
{
    let mut k: usize = 0;
    while k < list.len()
        invariant
            k <= list.len(),
            forall|j: int| 0 <= j < k ==> list@[j]@ != id@,
        decreases list.len() - k,
    {
        if str_equal(list[k].as_str(), id) {
            assert(texts(list@)[k as int] == id@);
            return true;
        }
        k = k + 1;
    }
    assert forall|j: int| 0 <= j < list.len() implies texts(list@)[j] != id@ by {
        assert(texts(list@)[j] == list@[j]@);
    }
    false
}

/// The models offered, given the ids the account can use: the recommended models first, in
/// their fixed order, each marked available or not, the default one marked recommended; then
/// every other available `gpt-` model, once, in code-point order, marked experimental.
pub fn model_options(available: &Vec<String>) -> (r: Vec<ModelOption>)
    ensures
        r.len() >= RECOMMENDED_COUNT,
        forall|k: int|
            0 <= k < RECOMMENDED_COUNT ==> {
                &&& (#[trigger] r@[k]).id@ == recommended_model(k)
                &&& r@[k].available == texts(available@).contains(recommended_model(k))
                &&& !r@[k].experimental
                &&& r@[k].recommended == (k == DEFAULT_MODEL_INDEX)
            },
        forall|k: int|
            RECOMMENDED_COUNT <= k < r.len() ==> {
                &&& (#[trigger] r@[k]).available
                &&& r@[k].experimental
                &&& !r@[k].recommended
                &&& is_experimental_candidate(r@[k].id@)
                &&& texts(available@).contains(r@[k].id@)
            },
        strictly_sorted(option_ids(r@).skip(RECOMMENDED_COUNT as int)),
        forall|id: Seq<char>|
            texts(available@).contains(id) && is_experimental_candidate(id) ==> option_ids(r@).skip(
                RECOMMENDED_COUNT as int,
            ).contains(id),
        available.len() == 0 ==> r.len() == RECOMMENDED_COUNT && forall|k: int|
            0 <= k < RECOMMENDED_COUNT ==> !(#[trigger] r@[k]).available,
{
    let rec = recommended_models();
    let mut r: Vec<ModelOption> = Vec::new();
    let mut k: usize = 0;
    while k < rec.len()
        invariant
            k <= rec.len() == RECOMMENDED_COUNT,
            r.len() == k,
            forall|j: int| 0 <= j < RECOMMENDED_COUNT ==> #[trigger] rec@[j]@ == recommended_model(j),
            forall|j: int|
                0 <= j < k ==> {
                    &&& (#[trigger] r@[j]).id@ == recommended_model(j)
                    &&& r@[j].available == texts(available@).contains(recommended_model(j))
                    &&& !r@[j].experimental
                    &&& r@[j].recommended == (j == DEFAULT_MODEL_INDEX)
                },
        decreases rec.len() - k,
    {
        let id = rec[k].clone();
        let available_here = contains_text(available, id.as_str());
        r.push(ModelOption { id, available: available_here, experimental: false, recommended: k == DEFAULT_MODEL_INDEX });
        k = k + 1;
    }
    let extra = experimental_ids(available);
    let ghost head = r@;
    let mut i: usize = 0;
    while i < extra.len()
        invariant
            i <= extra.len(),
            r.len() == RECOMMENDED_COUNT + i,
            r@.take(RECOMMENDED_COUNT as int) == head,
            head.len() == RECOMMENDED_COUNT,
            forall|j: int|
                0 <= j < RECOMMENDED_COUNT ==> {
                    &&& (#[trigger] head[j]).id@ == recommended_model(j)
                    &&& head[j].available == texts(available@).contains(recommended_model(j))
                    &&& !head[j].experimental
                    &&& head[j].recommended == (j == DEFAULT_MODEL_INDEX)
                },
            forall|j: int| 0 <= j < i ==> (#[trigger] r@[RECOMMENDED_COUNT + j]).id@ == extra@[j]@ && r@[RECOMMENDED_COUNT + j].available && r@[RECOMMENDED_COUNT + j].experimental && !r@[RECOMMENDED_COUNT + j].recommended,
        decreases extra.len() - i,
    {
        r.push(ModelOption { id: extra[i].clone(), available: true, experimental: true, recommended: false });
        assert(r@.take(RECOMMENDED_COUNT as int) =~= head);
        i = i + 1;
    }
    assert forall|j: int| 0 <= j < extra.len() implies option_ids(r@).skip(RECOMMENDED_COUNT as int)[j]
        == #[trigger] texts(extra@)[j] by {
        assert(r@[RECOMMENDED_COUNT + j].id@ == extra@[j]@);
    }
    assert(option_ids(r@).skip(RECOMMENDED_COUNT as int) =~= texts(extra@));
    assert forall|k: int| 0 <= k < RECOMMENDED_COUNT implies #[trigger] r@[k] == head[k] by {
        assert(r@.take(RECOMMENDED_COUNT as int)[k] == r@[k]);
    }
    if available.len() == 0 {
        if r.len() > RECOMMENDED_COUNT {
            assert(texts(available@).contains(r@[RECOMMENDED_COUNT as int].id@));
        }
        assert forall|k: int| 0 <= k < RECOMMENDED_COUNT implies !(#[trigger] r@[k]).available by {
            assert(r@[k] == head[k]);
        }
    }
    assert forall|k: int| RECOMMENDED_COUNT <= k < r.len() implies (#[trigger] r@[k]).available
        && r@[k].experimental && !r@[k].recommended && is_experimental_candidate(r@[k].id@)
        && texts(available@).contains(r@[k].id@) by {
        let j = k - RECOMMENDED_COUNT;
        assert(r@[RECOMMENDED_COUNT + j].id@ == extra@[j]@);
    }
    r
}


// ---------------------------------------------------------------------------------------------
// Ranking request: instruction, transcript excerpt, candidate thumbnails.

/// The instruction that opens a ranking request for `count` candidates.
pub open spec fn ranking_instruction_text(prompt: Seq<char>, count: nat) -> Seq<char> {
    prompt + "\nОціни "@ + decimal(count) + " кандидатів. Збережи їхні id та не змінюй таймкоди."@
}

/// The instruction of a ranking request: the user's prompt, then how many candidates to score
/// and that their ids and times must be kept.
pub fn ranking_instruction(prompt: &str, count: usize) -> (r: String)
    ensures
        r@ == ranking_instruction_text(prompt@, count as nat),
{
    let mut r = prompt.to_owned();
    r.append("\nОціни ");
    push_decimal(&mut r, count as u64);
    r.append(" кандидатів. Збережи їхні id та не змінюй таймкоди.");
    r
}

/// The most characters of a transcript sent with a ranking request.
pub const TRANSCRIPT_LIMIT: usize = 20000;

/// The transcript message: none for a missing or blank transcript, otherwise a heading and
/// the transcript's first 20 000 characters.
pub open spec fn transcript_message_text(transcript: Option<Seq<char>>) -> Option<Seq<char>> {
    match transcript {
        Some(t) => if trimmed(t).len() == 0 {
            None
        } else {
            Some("Транскрипція джерела:\n"@ + if t.len() <= TRANSCRIPT_LIMIT {
                t
            } else {
                t.take(TRANSCRIPT_LIMIT as int)
            })
        },
        None => None,
    }
}

/// The transcript part of a ranking request, if there is a transcript worth sending.
pub fn transcript_message(transcript: Option<&str>) -> (r: Option<String>)
    ensures
        match r {
            Some(m) => transcript_message_text(
                match transcript {
                    Some(t) => Some(t@),
                    None => None,
                },
            ) == Some(m@),
            None => transcript_message_text(
                match transcript {
                    Some(t) => Some(t@),
                    None => None,
                },
            ) is None,
        },
{
    match transcript {
        None => None,
        Some(t) => {
            let v = chars_of(t);
            let (a, b) = trim_bounds(&v, 0, v.len());
            assert(v@.subrange(0, v.len() as int) =~= t@);
            if a == b {
                assert(trimmed(t@) =~= Seq::<char>::empty());
                return None;
            }
            let n = if v.len() <= TRANSCRIPT_LIMIT { v.len() } else { TRANSCRIPT_LIMIT };
            let mut m = "Транскрипція джерела:\n".to_owned();
            m.append(crate::text::string_of(&v, 0, n).as_str());
            assert(v@.subrange(0, n as int) =~= if t@.len() <= TRANSCRIPT_LIMIT {
                t@
            } else {
                t@.take(TRANSCRIPT_LIMIT as int)
            });
            Some(m)
        },
    }
}

/// One base64 digit of the standard alphabet (`A`–`Z`, `a`–`z`, `0`–`9`, `+`, `/`).
pub open spec fn base64_digit(v: int) -> char {
    if v < 26 {
        (65 + v) as char
    } else if v < 52 {
        (97 + v - 26) as char
    } else if v < 62 {
        (48 + v - 52) as char
    } else if v == 62 {
        '+'
    } else {
        '/'
    }
}

/// Standard base64 (RFC 4648, section 4) with `=` padding: every three bytes become four
/// digits; a final one or two bytes become two or three digits and padding.
pub open spec fn base64_standard(b: Seq<u8>) -> Seq<char>
    decreases b.len(),
{
    if b.len() == 0 {
        Seq::empty()
    } else {
        let b0 = b[0] as int;
        let b1 = if b.len() > 1 { b[1] as int } else { 0 };
        let b2 = if b.len() > 2 { b[2] as int } else { 0 };
        if b.len() == 1 {
            seq![base64_digit(b0 / 4), base64_digit((b0 % 4) * 16), '=', '=']
        } else if b.len() == 2 {
            seq![base64_digit(b0 / 4), base64_digit((b0 % 4) * 16 + b1 / 16), base64_digit((b1 % 16) * 4), '=']
        } else {
            seq![
                base64_digit(b0 / 4),
                base64_digit((b0 % 4) * 16 + b1 / 16),
                base64_digit((b1 % 16) * 4 + b2 / 64),
                base64_digit(b2 % 64),
            ] + base64_standard(b.skip(3))
        }
    }
}

/// The encoded length of `n` bytes fits in `usize` (else the encoder panics).
pub open spec fn base64_fits(n: nat) -> bool {
    &&& (n / 3) * 4 <= usize::MAX
    &&& n % 3 != 0 ==> (n / 3) * 4 + 4 <= usize::MAX
}

/// `base64::engine::general_purpose::STANDARD.encode`: standard alphabet, `=` padding. It
/// panics only when the encoded length overflows `usize`, which `requires` rules out.
#[verifier::external_body]
fn base64_encode(bytes: &[u8]) -> (s: String)
    requires
        base64_fits(bytes@.len()),
    ensures
        s@ == base64_standard(bytes@),
{
    base64::engine::general_purpose::STANDARD.encode(bytes)
}

/// A JPEG image as a `data:` URL.
pub fn image_data_url(bytes: &[u8]) -> (r: String)
    requires
        base64_fits(bytes@.len()),
    ensures
        r@ == "data:image/jpeg;base64,"@ + base64_standard(bytes@),
{
    let mut r = "data:image/jpeg;base64,".to_owned();
    r.append(base64_encode(bytes).as_str());
    r
}

// ---------------------------------------------------------------------------------------------
// Ranking response.

/// The first text among the contents of one output item.
pub open spec fn first_content_text(contents: Seq<Option<String>>) -> Option<Seq<char>>
    decreases contents.len(),
{
    if contents.len() == 0 {
        None
    } else {
        match contents[0] {
            Some(t) => Some(t@),
            None => first_content_text(contents.drop_first()),
        }
    }
}

/// The first text of the response's output items, searching their contents in order.
pub open spec fn first_output_text_of(items: Seq<Vec<Option<String>>>) -> Option<Seq<char>>
    decreases items.len(),
{
    if items.len() == 0 {
        None
    } else {
        match first_content_text(items[0]@) {
            Some(t) => Some(t),
            None => first_output_text_of(items.drop_first()),
        }
    }
}

/// The structured text of a model response: `items[i][j]` is the text of content `j` of
/// output item `i`, if that content is text.
pub fn first_output_text(items: &Vec<Vec<Option<String>>>) -> (r: Option<String>)
    ensures
        match r {
            Some(t) => first_output_text_of(items@) == Some(t@),
            None => first_output_text_of(items@) is None,
        },
{
    let mut i: usize = 0;
    assert(items@.skip(0) =~= items@);
    while i < items.len()
        invariant
            i <= items.len(),
            first_output_text_of(items@.skip(i as int)) == first_output_text_of(items@),
        decreases items.len() - i,
    {
        let contents = &items[i];
        let mut j: usize = 0;
        assert(contents@.skip(0) =~= contents@);
        while j < contents.len()
            invariant
                j <= contents.len(),
                i < items.len(),
                *contents == items@[i as int],
                first_output_text_of(items@.skip(i as int)) == first_output_text_of(items@),
                first_content_text(contents@.skip(j as int)) == first_content_text(contents@),
            decreases contents.len() - j,
        {
            assert(contents@.skip(j as int).drop_first() =~= contents@.skip(j + 1));
            match &contents[j] {
                Some(t) => {
                    assert(items@.skip(i as int)[0] == *contents);
                    return Some(t.clone());
                },
                None => {},
            }
            j = j + 1;
        }
        assert(contents@.skip(j as int) =~= Seq::<Option<String>>::empty());
        assert(items@.skip(i as int).drop_first() =~= items@.skip(i + 1));
        assert(items@.skip(i as int)[0] == *contents);
        i = i + 1;
    }
    assert(items@.skip(i as int) =~= Seq::<Vec<Option<String>>>::empty());
    None
}

/// The position of the first ranking for the candidate `id`.
pub fn find_ranking(ranking_ids: &Vec<String>, id: &str) -> (r: Option<usize>)
    ensures
        match r {
            Some(k) => k < ranking_ids.len() && ranking_ids@[k as int]@ == id@ && forall|j: int|
                0 <= j < k ==> ranking_ids@[j]@ != id@,
            None => forall|j: int| 0 <= j < ranking_ids.len() ==> ranking_ids@[j]@ != id@,
        },
{
    let mut k: usize = 0;
    while k < ranking_ids.len()
        invariant
            k <= ranking_ids.len(),
            forall|j: int| 0 <= j < k ==> ranking_ids@[j]@ != id@,
        decreases ranking_ids.len() - k,
    {
        if str_equal(ranking_ids[k].as_str(), id) {
            return Some(k);
        }
        k = k + 1;
    }
    None
}

} // verus!
