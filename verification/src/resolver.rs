//! Symbol resolution in two passes. The first pass takes the label definitions out of
//! the program and binds each label to the address of the instruction that follows it.
//! The second pass rewrites every address instruction that names a symbol into one that
//! holds a number, giving each new name the next free variable address.

use vstd::prelude::*;
use crate::error::AsmError;
use crate::symbol_table::{
    lemma_predefined_are_names, predefined, predefined_address, SymbolTable, FIRST_VARIABLE,
    PREDEFINED_SYMBOLS,
};
use crate::syntax::{
    address_line, is_address, is_address_line, is_label, is_label_line, is_malformed,
    is_reference, is_valid_name, label_name, operand,
};
use crate::text::{chars_of, is_decimal_number, push_decimal, string_of};

verus! {

/// The program's instructions: its lines without the label definitions.
pub open spec fn instructions(lines: Seq<Seq<char>>) -> Seq<Seq<char>>
    decreases lines.len(),
{
    if lines.len() == 0 {
        Seq::empty()
    } else if is_label(lines.last()) {
        instructions(lines.drop_last())
    } else {
        instructions(lines.drop_last()).push(lines.last())
    }
}

/// `table` after the first pass over `lines`: each label is bound to the number of
/// instructions that stand before its definition.
pub open spec fn with_labels(lines: Seq<Seq<char>>, table: Map<Seq<char>, nat>) -> Map<
    Seq<char>,
    nat,
>
    decreases lines.len(),
{
    if lines.len() == 0 {
        table
    } else if is_label(lines.last()) {
        with_labels(lines.drop_last(), table).insert(
            label_name(lines.last()),
            instructions(lines.drop_last()).len(),
        )
    } else {
        with_labels(lines.drop_last(), table)
    }
}

/// `table` after the second pass over `stream`: each name that was not bound when an
/// instruction first referred to it is a variable, bound to the next free address.
pub open spec fn with_variables(stream: Seq<Seq<char>>, table: Map<Seq<char>, nat>) -> Map<
    Seq<char>,
    nat,
>
    decreases stream.len(),
{
    if stream.len() == 0 {
        table
    } else {
        let before = with_variables(stream.drop_last(), table);
        if allocates(stream.last(), before) {
            before.insert(
                operand(stream.last()),
                FIRST_VARIABLE as nat + variable_count(stream.drop_last(), table),
            )
        } else {
            before
        }
    }
}

/// Whether the second pass, holding `table`, makes a new variable when it reads `line`.
pub open spec fn allocates(line: Seq<char>, table: Map<Seq<char>, nat>) -> bool {
    is_reference(line) && !table.contains_key(operand(line))
}

/// How many variables the second pass makes while it reads `stream`, starting from `table`.
pub open spec fn variable_count(stream: Seq<Seq<char>>, table: Map<Seq<char>, nat>) -> nat
    decreases stream.len(),
{
    if stream.len() == 0 {
        0
    } else if allocates(stream.last(), with_variables(stream.drop_last(), table)) {
        variable_count(stream.drop_last(), table) + 1
    } else {
        variable_count(stream.drop_last(), table)
    }
}

/// What an instruction becomes once `table` binds every name: a reference is rewritten
/// to hold the address of its name, and any other line stays as it is.
pub open spec fn resolved_line(line: Seq<char>, table: Map<Seq<char>, nat>) -> Seq<char> {
    if is_reference(line) {
        address_line(table[operand(line)])
    } else {
        line
    }
}

/// Whether some line of `stream` is an address instruction with a malformed operand.
pub open spec fn has_malformed(stream: Seq<Seq<char>>) -> bool {
    exists|j: int| 0 <= j < stream.len() && is_malformed(#[trigger] stream[j])
}

/// The outcome of the second pass over `stream`, starting from `table`.
pub open spec fn resolved_stream(stream: Seq<Seq<char>>, table: Map<Seq<char>, nat>) -> Result<
    Seq<Seq<char>>,
    AsmError,
> {
    if has_malformed(stream) {
        Err(AsmError::Operand)
    } else {
        Ok(Seq::new(stream.len(), |j: int| resolved_line(stream[j], with_variables(stream, table))))
    }
}

/// The outcome of both passes over the lines of a program.
pub open spec fn resolved(lines: Seq<Seq<char>>) -> Result<Seq<Seq<char>>, AsmError> {
    resolved_stream(instructions(lines), with_labels(lines, predefined()))
}

/// What a result holding lines of text stands for.
pub open spec fn outcome(result: Result<Vec<String>, AsmError>) -> Result<
    Seq<Seq<char>>,
    AsmError,
> {
    match result {
        Ok(lines) => Ok(lines.deep_view()),
        Err(e) => Err(e),
    }
}

/// Whether some label definition among `lines` binds `name`.
pub open spec fn defines_label(lines: Seq<Seq<char>>, name: Seq<char>) -> bool {
    exists|i: int|
        0 <= i < lines.len() && is_label(#[trigger] lines[i]) && label_name(lines[i]) == name
}

/// Whether line `i` of `lines` is the last label definition that binds its name.
pub open spec fn is_last_definition(lines: Seq<Seq<char>>, i: int) -> bool {
    &&& 0 <= i < lines.len()
    &&& is_label(lines[i])
    &&& forall|k: int|
        i < k < lines.len() && is_label(#[trigger] lines[k]) ==> label_name(lines[k]) != label_name(
            lines[i],
        )
}

/// Whether some instruction of `stream` refers to `name`.
pub open spec fn mentions(stream: Seq<Seq<char>>, name: Seq<char>) -> bool {
    exists|i: int|
        0 <= i < stream.len() && is_reference(#[trigger] stream[i]) && operand(stream[i]) == name
}

/// Whether instruction `j` of `stream` is a reference, and the first to its name.
pub open spec fn is_first_use(stream: Seq<Seq<char>>, j: int) -> bool {
    &&& 0 <= j < stream.len()
    &&& is_reference(stream[j])
    &&& forall|i: int|
        0 <= i < j && is_reference(#[trigger] stream[i]) ==> operand(stream[i]) != operand(
            stream[j],
        )
}

/// Whether instruction `j` of `stream` is where a variable is first seen: the first
/// reference to a name that `table` does not bind.
pub open spec fn is_variable_site(
    stream: Seq<Seq<char>>,
    table: Map<Seq<char>, nat>,
    j: int,
) -> bool {
    is_first_use(stream, j) && !table.contains_key(operand(stream[j]))
}

/// How many variables are first seen before instruction `j` of `stream`.
pub open spec fn sites_before(stream: Seq<Seq<char>>, table: Map<Seq<char>, nat>, j: int) -> nat
    decreases j,
{
    if j <= 0 {
        0
    } else if is_variable_site(stream, table, j - 1) {
        sites_before(stream, table, j - 1) + 1
    } else {
        sites_before(stream, table, j - 1)
    }
}

/// The first pass leaves alone every name that no label definition binds.
pub proof fn lemma_labels_keep(lines: Seq<Seq<char>>, table: Map<Seq<char>, nat>, name: Seq<char>)
    requires
        !defines_label(lines, name),
    ensures
        with_labels(lines, table).contains_key(name) == table.contains_key(name),
        table.contains_key(name) ==> with_labels(lines, table)[name] == table[name],
    decreases lines.len(),
{
    if lines.len() > 0 {
        let front = lines.drop_last();
        assert(lines[lines.len() - 1] == lines.last());
        assert forall|i: int|
            0 <= i < front.len() && is_label(#[trigger] front[i]) implies label_name(front[i])
            != name by {
            assert(front[i] == lines[i]);
        }
        lemma_labels_keep(front, table, name);
    }
}

/// A label stands for the number of instructions before its last definition: the
/// address of the instruction that follows it.
pub proof fn lemma_label_address(lines: Seq<Seq<char>>, table: Map<Seq<char>, nat>, i: int)
    requires
        is_last_definition(lines, i),
    ensures
        with_labels(lines, table).contains_key(label_name(lines[i])),
        with_labels(lines, table)[label_name(lines[i])] == instructions(lines.take(i)).len(),
    decreases lines.len(),
{
    let front = lines.drop_last();
    if i == lines.len() - 1 {
        assert(front =~= lines.take(i));
    } else {
        assert(lines[lines.len() - 1] == lines.last());
        assert(front[i] == lines[i]);
        assert forall|k: int|
            i < k < front.len() && is_label(#[trigger] front[k]) implies label_name(front[k])
            != label_name(front[i]) by {
            assert(front[k] == lines[k]);
        }
        lemma_label_address(front, table, i);
        assert(front.take(i) =~= lines.take(i));
    }
}

/// The second pass never rebinds a name: it only adds names that were not bound.
pub proof fn lemma_variables_extend(stream: Seq<Seq<char>>, table: Map<Seq<char>, nat>, i: int)
    requires
        0 <= i <= stream.len(),
    ensures
        forall|key: Seq<char>| #[trigger]
            with_variables(stream.take(i), table).contains_key(key) ==> with_variables(
                stream,
                table,
            ).contains_key(key) && with_variables(stream, table)[key] == with_variables(
                stream.take(i),
                table,
            )[key],
    decreases stream.len() - i,
{
    if i == stream.len() {
        assert(stream.take(i) =~= stream);
    } else {
        lemma_variables_extend(stream, table, i + 1);
        assert(stream.take(i + 1).drop_last() =~= stream.take(i));
        let before = with_variables(stream.take(i), table);
        let after = with_variables(stream.take(i + 1), table);
        assert forall|key: Seq<char>| #[trigger] before.contains_key(key) implies with_variables(
            stream,
            table,
        ).contains_key(key) && with_variables(stream, table)[key] == before[key] by {
            assert(after.contains_key(key) && after[key] == before[key]);
        }
    }
}

/// A name that was bound before the second pass keeps its address: a label or a
/// predefined symbol is never taken for a variable.
pub proof fn lemma_bound_names_stay(
    stream: Seq<Seq<char>>,
    table: Map<Seq<char>, nat>,
    name: Seq<char>,
)
    requires
        table.contains_key(name),
    ensures
        with_variables(stream, table).contains_key(name),
        with_variables(stream, table)[name] == table[name],
{
    lemma_variables_extend(stream, table, 0);
    assert(stream.take(0) =~= Seq::<Seq<char>>::empty());
    assert(with_variables(stream.take(0), table).contains_key(name));
}

/// After the second pass the table binds the names it bound before and the names that
/// the instructions refer to, and no others.
pub proof fn lemma_variables_domain(
    stream: Seq<Seq<char>>,
    table: Map<Seq<char>, nat>,
    name: Seq<char>,
)
    ensures
        with_variables(stream, table).contains_key(name) <==> table.contains_key(name) || mentions(
            stream,
            name,
        ),
    decreases stream.len(),
{
    if stream.len() > 0 {
        let front = stream.drop_last();
        lemma_variables_domain(front, table, name);
        if mentions(front, name) {
            let i = choose|i: int|
                0 <= i < front.len() && is_reference(#[trigger] front[i]) && operand(front[i])
                    == name;
            assert(stream[i] == front[i]);
        }
        if mentions(stream, name) {
            let i = choose|i: int|
                0 <= i < stream.len() && is_reference(#[trigger] stream[i]) && operand(stream[i])
                    == name;
            if i < front.len() {
                assert(front[i] == stream[i]);
            } else {
                assert(stream[i] == stream.last());
            }
        }
        if is_reference(stream.last()) && operand(stream.last()) == name {
            assert(stream[stream.len() - 1] == stream.last());
        }
    }
}

/// The second pass makes a variable exactly where a name that the table did not bind is
/// referred to for the first time, and it has then made as many as were first seen before.
pub proof fn lemma_variable_sites(stream: Seq<Seq<char>>, table: Map<Seq<char>, nat>, j: int)
    requires
        0 <= j <= stream.len(),
    ensures
        variable_count(stream.take(j), table) == sites_before(stream, table, j),
        j < stream.len() ==> allocates(stream[j], with_variables(stream.take(j), table))
            == is_variable_site(stream, table, j),
    decreases j,
{
    if j < stream.len() && is_reference(stream[j]) {
        let name = operand(stream[j]);
        let seen = stream.take(j);
        lemma_variables_domain(seen, table, name);
        if mentions(seen, name) {
            let i = choose|i: int|
                0 <= i < seen.len() && is_reference(#[trigger] seen[i]) && operand(seen[i]) == name;
            assert(stream[i] == seen[i]);
        }
        if !is_first_use(stream, j) {
            let i = choose|i: int|
                0 <= i < j && is_reference(#[trigger] stream[i]) && operand(stream[i]) == name;
            assert(seen[i] == stream[i]);
        }
    }
    if j > 0 {
        lemma_variable_sites(stream, table, j - 1);
        assert(stream.take(j).drop_last() =~= stream.take(j - 1));
        assert(stream.take(j).last() == stream[j - 1]);
    }
}

/// Variables get the addresses 16, 17, 18 and so on, in the order in which they are
/// first seen: a variable has the address 16 plus the number of variables first seen
/// before it.
pub proof fn lemma_variable_address(stream: Seq<Seq<char>>, table: Map<Seq<char>, nat>, j: int)
    requires
        is_variable_site(stream, table, j),
    ensures
        with_variables(stream, table).contains_key(operand(stream[j])),
        with_variables(stream, table)[operand(stream[j])] == FIRST_VARIABLE + sites_before(
            stream,
            table,
            j,
        ),
{
    lemma_variable_sites(stream, table, j);
    lemma_variables_extend(stream, table, j + 1);
    assert(stream.take(j + 1).drop_last() =~= stream.take(j));
    assert(stream.take(j + 1).last() == stream[j]);
    assert(with_variables(stream.take(j + 1), table).contains_key(operand(stream[j])));
}

/// The count of variables first seen only grows along the program, and by one at
/// each place where a variable is first seen.
pub proof fn lemma_sites_grow(stream: Seq<Seq<char>>, table: Map<Seq<char>, nat>, i: int, j: int)
    requires
        i <= j,
    ensures
        sites_before(stream, table, i) <= sites_before(stream, table, j),
        i < j && is_variable_site(stream, table, i) ==> sites_before(stream, table, i)
            < sites_before(stream, table, j),
    decreases j - i,
{
    if i < j {
        lemma_sites_grow(stream, table, i, j - 1);
    }
}

/// No address is skipped: below the number of variables made, every count is that of
/// the variables first seen before some variable.
pub proof fn lemma_variable_addresses_are_dense(
    stream: Seq<Seq<char>>,
    table: Map<Seq<char>, nat>,
    j: int,
    k: nat,
)
    requires
        0 <= j <= stream.len(),
        k < sites_before(stream, table, j),
    ensures
        exists|i: int|
            0 <= i < j && #[trigger] is_variable_site(stream, table, i) && sites_before(
                stream,
                table,
                i,
            ) == k,
    decreases j,
{
    if j > 0 {
        if is_variable_site(stream, table, j - 1) && sites_before(stream, table, j - 1) == k {
        } else {
            lemma_variable_addresses_are_dense(stream, table, j - 1, k);
            let i = choose|i: int|
                0 <= i < j - 1 && #[trigger] is_variable_site(stream, table, i) && sites_before(
                    stream,
                    table,
                    i,
                ) == k;
            assert(0 <= i < j && is_variable_site(stream, table, i));
        }
    }
}

/// A name that an instruction refers to, and that the table did not bind, is a variable:
/// there is a place where it is first seen, at that instruction or before it.
pub proof fn lemma_variable_has_a_site(
    stream: Seq<Seq<char>>,
    table: Map<Seq<char>, nat>,
    name: Seq<char>,
    j: int,
)
    requires
        0 <= j < stream.len(),
        is_reference(stream[j]),
        operand(stream[j]) == name,
        !table.contains_key(name),
    ensures
        exists|i: int|
            0 <= i <= j && #[trigger] is_variable_site(stream, table, i) && operand(stream[i])
                == name,
    decreases j,
{
    if is_first_use(stream, j) {
        assert(is_variable_site(stream, table, j));
    } else {
        let i = choose|i: int|
            0 <= i < j && is_reference(#[trigger] stream[i]) && operand(stream[i]) == name;
        lemma_variable_has_a_site(stream, table, name, i);
        let s = choose|s: int|
            0 <= s <= i && #[trigger] is_variable_site(stream, table, s) && operand(stream[s])
                == name;
        assert(0 <= s <= j && is_variable_site(stream, table, s));
    }
}

/// The table that both passes leave behind when they have read `lines`.
pub open spec fn final_table(lines: Seq<Seq<char>>) -> Map<Seq<char>, nat> {
    with_variables(instructions(lines), with_labels(lines, predefined()))
}

/// A predefined symbol stands for its fixed address whatever else the program holds, so
/// long as the program has no label definition of that name.
pub proof fn lemma_predefined_symbol_resolves(lines: Seq<Seq<char>>, j: int)
    requires
        0 <= j < instructions(lines).len(),
        is_address(instructions(lines)[j]),
        predefined_address(operand(instructions(lines)[j])) is Some,
        !defines_label(lines, operand(instructions(lines)[j])),
    ensures
        resolved(lines) matches Ok(code) ==> code[j] == address_line(
            predefined_address(operand(instructions(lines)[j]))->0,
        ),
{
    let stream = instructions(lines);
    let name = operand(stream[j]);
    lemma_predefined_are_names(name);
    lemma_labels_keep(lines, predefined(), name);
    lemma_bound_names_stay(stream, with_labels(lines, predefined()), name);
}

/// Every reference to a label is rewritten to hold the number of instructions that stand
/// before the label's last definition.
pub proof fn lemma_label_resolves(lines: Seq<Seq<char>>, i: int, j: int)
    requires
        is_last_definition(lines, i),
        0 <= j < instructions(lines).len(),
        is_reference(instructions(lines)[j]),
        operand(instructions(lines)[j]) == label_name(lines[i]),
    ensures
        resolved(lines) matches Ok(code) ==> code[j] == address_line(
            instructions(lines.take(i)).len(),
        ),
{
    lemma_label_address(lines, predefined(), i);
    lemma_bound_names_stay(
        instructions(lines),
        with_labels(lines, predefined()),
        label_name(lines[i]),
    );
}

/// The first reference to a variable is rewritten to hold 16 plus the number of
/// variables first seen before it, and so is every later reference to the same name.
pub proof fn lemma_variable_resolves(lines: Seq<Seq<char>>, site: int, j: int)
    requires
        is_variable_site(instructions(lines), with_labels(lines, predefined()), site),
        0 <= j < instructions(lines).len(),
        is_reference(instructions(lines)[j]),
        operand(instructions(lines)[j]) == operand(instructions(lines)[site]),
    ensures
        resolved(lines) matches Ok(code) ==> code[j] == address_line(
            FIRST_VARIABLE as nat + sites_before(
                instructions(lines),
                with_labels(lines, predefined()),
                site,
            ),
        ),
{
    lemma_variable_address(instructions(lines), with_labels(lines, predefined()), site);
}

/// Whether `address` is the address of a variable of the program.
pub open spec fn is_variable_address(lines: Seq<Seq<char>>, address: nat) -> bool {
    exists|j: int| #[trigger]
        is_variable_site(instructions(lines), with_labels(lines, predefined()), j) && final_table(
            lines,
        )[operand(instructions(lines)[j])] == address
}

/// The variables of a program have the addresses 16, 17, 18 and so on, exactly and in
/// the order in which they are first seen. A name is a variable only if neither a label
/// nor a predefined symbol has it, and those keep the addresses they had.
pub proof fn lemma_variable_addresses(lines: Seq<Seq<char>>)
    ensures
        ({
            let stream = instructions(lines);
            let base = with_labels(lines, predefined());
            let table = final_table(lines);
            let total = variable_count(stream, base);
            &&& forall|j: int| #[trigger]
                is_variable_site(stream, base, j) ==> {
                    &&& table.contains_key(operand(stream[j]))
                    &&& table[operand(stream[j])] == FIRST_VARIABLE + sites_before(stream, base, j)
                    &&& sites_before(stream, base, j) < total
                }
            &&& forall|i: int, j: int|
                i < j && #[trigger] is_variable_site(stream, base, i)
                    && #[trigger] is_variable_site(stream, base, j) ==> table[operand(stream[i])]
                    < table[operand(stream[j])]
            &&& forall|address: nat| #[trigger]
                is_variable_address(lines, address) <==> FIRST_VARIABLE <= address
                    < FIRST_VARIABLE + total
            &&& forall|name: Seq<char>| #[trigger]
                base.contains_key(name) ==> table.contains_key(name) && table[name] == base[name]
            &&& forall|name: Seq<char>|
                #[trigger] table.contains_key(name) && !base.contains_key(name) ==> exists|j: int|
                 #[trigger]
                    is_variable_site(stream, base, j) && operand(stream[j]) == name
        }),
{
    let stream = instructions(lines);
    let base = with_labels(lines, predefined());
    let table = final_table(lines);
    let total = variable_count(stream, base);
    lemma_variable_sites(stream, base, stream.len() as int);
    assert(stream.take(stream.len() as int) =~= stream);
    assert forall|j: int| #[trigger] is_variable_site(stream, base, j) implies {
        &&& table.contains_key(operand(stream[j]))
        &&& table[operand(stream[j])] == FIRST_VARIABLE + sites_before(stream, base, j)
        &&& sites_before(stream, base, j) < total
    } by {
        lemma_variable_address(stream, base, j);
        lemma_sites_grow(stream, base, j, stream.len() as int);
    }
    assert forall|i: int, j: int|
        i < j && #[trigger] is_variable_site(stream, base, i) && #[trigger] is_variable_site(
            stream,
            base,
            j,
        ) implies table[operand(stream[i])] < table[operand(stream[j])] by {
        lemma_sites_grow(stream, base, i, j);
    }
    assert forall|address: nat| #[trigger]
        is_variable_address(lines, address) <==> FIRST_VARIABLE <= address < FIRST_VARIABLE
            + total by {
        if FIRST_VARIABLE <= address < FIRST_VARIABLE + total {
            let k = (address - FIRST_VARIABLE) as nat;
            lemma_variable_addresses_are_dense(stream, base, stream.len() as int, k);
            let j = choose|j: int|
                0 <= j < stream.len() && #[trigger] is_variable_site(stream, base, j)
                    && sites_before(stream, base, j) == k;
            assert(is_variable_site(stream, base, j) && table[operand(stream[j])] == address);
        }
    }
    assert forall|name: Seq<char>| #[trigger] base.contains_key(name) implies table.contains_key(
        name,
    ) && table[name] == base[name] by {
        lemma_bound_names_stay(stream, base, name);
    }
    assert forall|name: Seq<char>|
        #[trigger] table.contains_key(name) && !base.contains_key(name) implies exists|j: int|
     #[trigger]
        is_variable_site(stream, base, j) && operand(stream[j]) == name by {
        lemma_variables_domain(stream, base, name);
        let i = choose|i: int|
            0 <= i < stream.len() && is_reference(#[trigger] stream[i]) && operand(stream[i])
                == name;
        lemma_variable_has_a_site(stream, base, name, i);
        let j = choose|j: int|
            0 <= j <= i && #[trigger] is_variable_site(stream, base, j) && operand(stream[j])
                == name;
        assert(is_variable_site(stream, base, j));
    }
}

/// Below the screen, a variable's address is the address of no predefined symbol.
pub proof fn lemma_variable_address_is_free(count: nat, name: Seq<char>)
    requires
        count < 16368,
        predefined_address(name) is Some,
    ensures
        predefined_address(name)->0 != FIRST_VARIABLE + count,
{
}

/// Resolving leaves one line for each instruction, and takes the label definitions out.
pub proof fn lemma_resolved_len(lines: Seq<Seq<char>>)
    ensures
        resolved(lines) matches Ok(code) ==> code.len() == instructions(lines).len(),
        instructions(lines).len() <= lines.len(),
        forall|j: int|
            0 <= j < instructions(lines).len() ==> !is_label(#[trigger] instructions(lines)[j]),
    decreases lines.len(),
{
    if lines.len() > 0 {
        lemma_resolved_len(lines.drop_last());
    }
}

/// The first pass: the instructions of `lines`, and in `table` a binding for every label.
pub fn extract_labels(lines: &Vec<String>, table: &mut SymbolTable) -> (stream: Vec<String>)
    ensures
        stream.deep_view() == instructions(lines.deep_view()),
        final(table)@ == with_labels(lines.deep_view(), old(table)@),
        final(table).size() >= old(table).size(),
{
    let mut stream: Vec<String> = Vec::new();
    let mut i: usize = 0;
    while i < lines.len()
        invariant
            i <= lines.len(),
            stream.deep_view() == instructions(lines.deep_view().take(i as int)),
            table@ == with_labels(lines.deep_view().take(i as int), old(table)@),
            table.size() >= old(table).size(),
        decreases lines.len() - i,
    {
        let chars = chars_of(lines[i].as_str());
        proof {
            let seen = lines.deep_view().take(i + 1);
            assert(seen.drop_last() == lines.deep_view().take(i as int));
            assert(seen.last() == chars@);
        }
        if is_label_line(chars.as_slice()) {
            let ghost count = stream@.len();
            assert(count == stream.deep_view().len());
            let name = vstd::slice::slice_to_vec(&chars.as_slice()[1..chars.len() - 1]);
            table.bind(name, stream.len());
        } else {
            let ghost before = stream.deep_view();
            stream.push(lines[i].clone());
            assert(stream.deep_view() == before.push(chars@));
        }
        i += 1;
    }
    assert(lines.deep_view().take(lines.len() as int) == lines.deep_view());
    stream
}

/// The address instruction that loads `address`, as text.
pub fn address_text(address: usize) -> (line: String)
    ensures
        line@ == address_line(address as nat),
{
    let mut chars: Vec<char> = Vec::new();
    chars.push('@');
    push_decimal(&mut chars, address);
    string_of(chars.as_slice())
}

/// The second pass: every instruction of `stream` with its symbol resolved, or the error
/// that a malformed operand calls for. New variables are bound in `table`.
pub fn resolve_symbols(stream: &Vec<String>, table: &mut SymbolTable) -> (out: Result<
    Vec<String>,
    AsmError,
>)
    requires
        old(table).well_formed(),
    ensures
        outcome(out) == resolved_stream(stream.deep_view(), old(table)@),
        out is Ok ==> final(table)@ == with_variables(stream.deep_view(), old(table)@),
        final(table).size() >= old(table).size(),
{
    let ghost given = stream.deep_view();
    let ghost base = old(table)@;
    let mut out: Vec<String> = Vec::new();
    let start = table.len();
    let mut j: usize = 0;
    while j < stream.len()
        invariant
            j <= stream.len(),
            given == stream.deep_view(),
            base == old(table)@,
            table@ == with_variables(given.take(j as int), base),
            start == old(table).size(),
            start >= PREDEFINED_SYMBOLS,
            table.size() == start + variable_count(given.take(j as int), base),
            out@.len() == j,
            forall|k: int| 0 <= k < j ==> !is_malformed(#[trigger] given[k]),
            forall|k: int|
                0 <= k < j && is_reference(#[trigger] given[k]) ==> table@.contains_key(
                    operand(given[k]),
                ),
            forall|k: int| 0 <= k < j ==> (#[trigger] out@[k])@ == resolved_line(given[k], table@),
        decreases stream.len() - j,
    {
        let chars = chars_of(stream[j].as_str());
        let ghost seen = given.take(j + 1);
        let ghost before = table@;
        proof {
            assert(seen.drop_last() == given.take(j as int));
            assert(seen.last() == chars@);
            assert(given[j as int] == chars@);
        }
        if is_address_line(chars.as_slice()) {
            let rest = &chars.as_slice()[1..chars.len()];
            if is_decimal_number(rest) {
                out.push(stream[j].clone());
            } else if is_valid_name(rest) {
                let target = match table.address_of(rest) {
                    Some(target) => target,
                    None => {
                        let target = FIRST_VARIABLE + (table.len() - start);
                        table.bind(vstd::slice::slice_to_vec(rest), target);
                        target
                    },
                };
                out.push(address_text(target));
            } else {
                assert(is_malformed(given[j as int]));
                return Err(AsmError::Operand);
            }
        } else {
            out.push(stream[j].clone());
        }
        proof {
            assert forall|k: int| 0 <= k < j + 1 implies (#[trigger] out@[k])@ == resolved_line(
                given[k],
                table@,
            ) by {
                if k < j {
                    assert(out@[k]@ == resolved_line(given[k], before));
                }
            }
        }
        j += 1;
    }
    proof {
        assert(given.take(stream.len() as int) == given);
        assert(!has_malformed(given));
        assert(out.deep_view() =~= resolved_stream(given, base)->Ok_0);
    }
    Ok(out)
}

/// Resolves the symbols of a program: takes out its label definitions and rewrites every
/// address instruction that names a symbol into one that holds the symbol's address.
pub fn symbols(code_with_symbols: &Vec<String>) -> (code_without_symbols: Result<
    Vec<String>,
    AsmError,
>)
    ensures
        outcome(code_without_symbols) == resolved(code_with_symbols.deep_view()),
{
    let mut table = SymbolTable::predefined();
    let stream = extract_labels(code_with_symbols, &mut table);
    resolve_symbols(&stream, &mut table)
}

} // verus!
