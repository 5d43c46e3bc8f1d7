//! Deterministic text emission: renders every layout into one class
//! declaration and one schema-table entry, and concatenates them with a
//! fixed preamble into the single generated source file.

use vstd::prelude::*;
use vstd::string::*;

use crate::model::Field;
use crate::model::FieldV;
use crate::model::Layout;
use crate::model::LayoutKind;
use crate::model::LayoutV;
use crate::model::TypeD;
use crate::model::TypeDescriptor;
use crate::model::fields_view;
use crate::model::layouts_view;

verus! {

/// The decimal digit character for one digit value.
pub open spec fn dec_digit(d: nat) -> char {
    if d == 0 {
        '0'
    } else if d == 1 {
        '1'
    } else if d == 2 {
        '2'
    } else if d == 3 {
        '3'
    } else if d == 4 {
        '4'
    } else if d == 5 {
        '5'
    } else if d == 6 {
        '6'
    } else if d == 7 {
        '7'
    } else if d == 8 {
        '8'
    } else {
        '9'
    }
}

/// The decimal numeral of a natural number, most significant digit first.
pub open spec fn dec_of(n: nat) -> Seq<char>
    decreases n,
{
    if n < 10 {
        seq![dec_digit(n)]
    } else {
        dec_of(n / 10) + seq![dec_digit(n % 10)]
    }
}

/// A decimal numeral is never empty.
pub proof fn lemma_dec_of_nonempty(n: nat)
    ensures
        dec_of(n).len() >= 1,
{
}

fn digit_str(d: u32) -> (r: &'static str)
    requires
        d < 10,
    ensures
        r@ == seq![dec_digit(d as nat)],
{
    proof {
        reveal_strlit("0");
        reveal_strlit("1");
        reveal_strlit("2");
        reveal_strlit("3");
        reveal_strlit("4");
        reveal_strlit("5");
        reveal_strlit("6");
        reveal_strlit("7");
        reveal_strlit("8");
        reveal_strlit("9");
    }
    if d == 0 {
        proof { assert("0"@ =~= seq![dec_digit(0)]); }
        "0"
    } else if d == 1 {
        proof { assert("1"@ =~= seq![dec_digit(1)]); }
        "1"
    } else if d == 2 {
        proof { assert("2"@ =~= seq![dec_digit(2)]); }
        "2"
    } else if d == 3 {
        proof { assert("3"@ =~= seq![dec_digit(3)]); }
        "3"
    } else if d == 4 {
        proof { assert("4"@ =~= seq![dec_digit(4)]); }
        "4"
    } else if d == 5 {
        proof { assert("5"@ =~= seq![dec_digit(5)]); }
        "5"
    } else if d == 6 {
        proof { assert("6"@ =~= seq![dec_digit(6)]); }
        "6"
    } else if d == 7 {
        proof { assert("7"@ =~= seq![dec_digit(7)]); }
        "7"
    } else if d == 8 {
        proof { assert("8"@ =~= seq![dec_digit(8)]); }
        "8"
    } else {
        proof { assert("9"@ =~= seq![dec_digit(9)]); }
        "9"
    }
}

/// Renders a number as its decimal numeral.
pub fn dec_u32(n: u32) -> (r: String)
    ensures
        r@ == dec_of(n as nat),
    decreases n,
{
    if n < 10 {
        String::from_str(digit_str(n))
    } else {
        let mut s = dec_u32(n / 10);
        s.append(digit_str(n % 10));
        s
    }
}

/// The dispatch name under which the target reader/writer reaches one
/// primitive: the 32-byte identifier goes through the patched
/// `publicKeyHack` pair, the source `String` tag is spelled `string`, a
/// `bool` travels as a single byte, and every integer keeps its own name.
pub open spec fn primitive_dispatch(s: Seq<char>) -> Seq<char> {
    if s == "Pubkey"@ {
        "publicKeyHack"@
    } else if s == "String"@ {
        "string"@
    } else if s == "bool"@ {
        "u8"@
    } else {
        s
    }
}

fn dispatch_primitive(p: &String) -> (r: String)
    ensures
        r@ == primitive_dispatch(p@),
{
    if *p == String::from_str("Pubkey") {
        String::from_str("publicKeyHack")
    } else if *p == String::from_str("String") {
        String::from_str("string")
    } else if *p == String::from_str("bool") {
        String::from_str("u8")
    } else {
        p.clone()
    }
}

/// The schema-table encoding of one type descriptor, in the target
/// runtime's composite-type vocabulary: quoted primitive dispatch names,
/// `[elem, len]` fixed arrays, `[elem]` sequences, option and map records,
/// and bare class identifiers for references.
pub open spec fn type_schema_text(t: TypeD) -> Seq<char>
    decreases t,
{
    match t {
        TypeD::Prim { name } => "'"@ + primitive_dispatch(name) + "'"@,
        TypeD::FixedArr { elem, len } => "["@ + type_schema_text(*elem) + ", "@ + dec_of(len)
            + "]"@,
        TypeD::Sequence { elem } => "["@ + type_schema_text(*elem) + "]"@,
        TypeD::Optional { inner } => "{ kind: 'option', type: "@ + type_schema_text(*inner)
            + " }"@,
        TypeD::Mapping { key, value } => "{ kind: 'map', key: "@ + type_schema_text(*key)
            + ", value: "@ + type_schema_text(*value) + " }"@,
        TypeD::Ref { name } => name,
    }
}

/// Renders one type descriptor for the schema table.
pub fn render_type(t: &TypeDescriptor) -> (r: String)
    ensures
        r@ == type_schema_text(t@),
    decreases *t,
{
    match t {
        TypeDescriptor::Primitive(p) => {
            let mut s = String::from_str("'");
            s.append(dispatch_primitive(p).as_str());
            s.append("'");
            s
        },
        TypeDescriptor::FixedArray(e, n) => {
            let mut s = String::from_str("[");
            s.append(render_type(e).as_str());
            s.append(", ");
            s.append(dec_u32(*n).as_str());
            s.append("]");
            s
        },
        TypeDescriptor::Sequence(e) => {
            let mut s = String::from_str("[");
            s.append(render_type(e).as_str());
            s.append("]");
            s
        },
        TypeDescriptor::Optional(e) => {
            let mut s = String::from_str("{ kind: 'option', type: ");
            s.append(render_type(e).as_str());
            s.append(" }");
            s
        },
        TypeDescriptor::Mapping(k, v) => {
            let mut s = String::from_str("{ kind: 'map', key: ");
            s.append(render_type(k).as_str());
            s.append(", value: ");
            s.append(render_type(v).as_str());
            s.append(" }");
            s
        },
        TypeDescriptor::TypeRef(n) => n.clone(),
    }
}

/// The schema-table line for one field: its name, then its type encoding.
pub open spec fn field_entry_text(f: FieldV) -> Seq<char> {
    "\n\t\t\t\t['"@ + f.name + "', "@ + type_schema_text(f.ty) + "],"@
}

/// The schema-table lines of a field list, in field order.
pub open spec fn fields_entries_text(fs: Seq<FieldV>) -> Seq<char>
    decreases fs.len(),
{
    if fs.len() == 0 {
        Seq::empty()
    } else {
        fields_entries_text(fs.drop_last()) + field_entry_text(fs.last())
    }
}

/// The kind marker that opens a schema entry's field list: records carry
/// their fields, tagged unions their variants under the active-tag field.
pub open spec fn kind_marker_text(k: LayoutKind) -> Seq<char> {
    match k {
        LayoutKind::Record => "kind: 'struct', fields: "@,
        LayoutKind::TaggedUnion => "kind: 'enum', field: 'enum', values: "@,
    }
}

/// One full schema-table entry: the class identifier, its kind marker and
/// its ordered field list.
pub open spec fn schema_entry_text(l: LayoutV) -> Seq<char> {
    "\n\t[\n\t\t"@ + l.name + ",\n\t\t{\n\t\t\t"@ + kind_marker_text(l.kind) + "["@
        + fields_entries_text(l.fields) + "\n\t\t\t],\n\t\t},\n\t],"@
}

/// The loosely-typed member declaration for one field of a generated class.
pub open spec fn class_field_text(f: FieldV) -> Seq<char> {
    "\t"@ + f.name + ": any;\n"@
}

/// The member declarations of a class, in field order.
pub open spec fn class_fields_text(fs: Seq<FieldV>) -> Seq<char>
    decreases fs.len(),
{
    if fs.len() == 0 {
        Seq::empty()
    } else {
        class_fields_text(fs.drop_last()) + class_field_text(fs.last())
    }
}

/// The base a generated class routes through: the plain-record base for
/// records, the single-active-field union base for tagged unions.
pub open spec fn base_name_text(k: LayoutKind) -> Seq<char> {
    match k {
        LayoutKind::Record => "Struct"@,
        LayoutKind::TaggedUnion => "Enum"@,
    }
}

/// One generated class declaration: it extends the matching base and its
/// constructor hands the properties bag to that base.
pub open spec fn class_text(l: LayoutV) -> Seq<char> {
    "export class "@ + l.name + " extends "@ + base_name_text(l.kind) + " {\n"@
        + class_fields_text(l.fields) + "\tconstructor(properties: any) {\n\t\tsuper(properties);\n\t}\n}\n\n"@
}

/// All class declarations, in layout order.
pub open spec fn classes_text(ls: Seq<LayoutV>) -> Seq<char>
    decreases ls.len(),
{
    if ls.len() == 0 {
        Seq::empty()
    } else {
        classes_text(ls.drop_last()) + class_text(ls.last())
    }
}

/// All schema-table entries, in layout order.
pub open spec fn entries_text(ls: Seq<LayoutV>) -> Seq<char>
    decreases ls.len(),
{
    if ls.len() == 0 {
        Seq::empty()
    } else {
        entries_text(ls.drop_last()) + schema_entry_text(ls.last())
    }
}

/// The single schema table wrapping every entry.
pub open spec fn schema_table_text(ls: Seq<LayoutV>) -> Seq<char> {
    "export const SCHEMA = new Map<any, any>(["@ + entries_text(ls) + "\n]);"@
}

/// The whole generated file: preamble, then every class, then the table.
pub open spec fn output_text(ls: Seq<LayoutV>) -> Seq<char> {
    preamble_text() + classes_text(ls) + schema_table_text(ls)
}

/// The fixed preamble: the imports of the binary reader/writer pair, the
/// 32-byte identifier type and the big-number helper the generated module
/// relies on, the patch that adds the identifier's read/write dispatch
/// pair to the reader/writer prototypes, and the two bases every
/// generated class routes through.
pub open spec fn preamble_text() -> Seq<char> {
    r#"import { BinaryReader, BinaryWriter } from "borsh";
import { PublicKey } from '@velas/web3';
import BN from "bn.js";

const borshPublicKeyHack = () => {
	// "borsh": "^0.7.0"

	// node_modules/borsh/lib/index.js:258
	//             writer[`write${capitalizeFirstLetter(fieldType)}`](value);
	//                                                               ^
	// TypeError: writer[capitalizeFirstLetter(...)] is not a function
  ;(BinaryReader.prototype as any).readPublicKeyHack = function () {
    const reader = this as unknown as BinaryReader
    const array = reader.readFixedArray(32)
    return new PublicKey(array)
  }
  ;(BinaryWriter.prototype as any).writePublicKeyHack = function (value: PublicKey) {
    const writer = this as unknown as BinaryWriter
    writer.writeFixedArray(value.toBytes())
  }
}

borshPublicKeyHack();

class Struct {
  constructor(properties: any) {
    Object.keys(properties).map(key => {
      this[key as keyof typeof this] = properties[key];
    });
  }
}

class Enum {
  enum: string | undefined;

  constructor(properties: any) {
    if (Object.keys(properties).length !== 1) {
      throw new Error('Enum can only take single value');
    }
    Object.keys(properties).map(key => {
      this[key as keyof typeof this] = properties[key];
      this.enum = key;
    });
  }
}

"#@
}

/// The fixed preamble as runtime text.
pub fn preamble() -> (r: &'static str)
    ensures
        r@ == preamble_text(),
{
    r#"import { BinaryReader, BinaryWriter } from "borsh";
import { PublicKey } from '@velas/web3';
import BN from "bn.js";

const borshPublicKeyHack = () => {
	// "borsh": "^0.7.0"

	// node_modules/borsh/lib/index.js:258
	//             writer[`write${capitalizeFirstLetter(fieldType)}`](value);
	//                                                               ^
	// TypeError: writer[capitalizeFirstLetter(...)] is not a function
  ;(BinaryReader.prototype as any).readPublicKeyHack = function () {
    const reader = this as unknown as BinaryReader
    const array = reader.readFixedArray(32)
    return new PublicKey(array)
  }
  ;(BinaryWriter.prototype as any).writePublicKeyHack = function (value: PublicKey) {
    const writer = this as unknown as BinaryWriter
    writer.writeFixedArray(value.toBytes())
  }
}

borshPublicKeyHack();

class Struct {
  constructor(properties: any) {
    Object.keys(properties).map(key => {
      this[key as keyof typeof this] = properties[key];
    });
  }
}

class Enum {
  enum: string | undefined;

  constructor(properties: any) {
    if (Object.keys(properties).length !== 1) {
      throw new Error('Enum can only take single value');
    }
    Object.keys(properties).map(key => {
      this[key as keyof typeof this] = properties[key];
      this.enum = key;
    });
  }
}

"#
}

fn render_field_entry(f: &Field) -> (r: String)
    ensures
        r@ == field_entry_text(f@),
{
    let mut s = String::from_str("\n\t\t\t\t['");
    s.append(f.name.as_str());
    s.append("', ");
    s.append(render_type(&f.ty).as_str());
    s.append("],");
    s
}

/// Renders the schema-table entry of one layout. Field order in the entry
/// matches layout field order exactly: that order is the wire order.
pub fn render_schema_entry(l: &Layout) -> (r: String)
    ensures
        r@ == schema_entry_text(l@),
{
    let mut s = String::from_str("\n\t[\n\t\t");
    s.append(l.name.as_str());
    s.append(",\n\t\t{\n\t\t\t");
    match l.kind {
        LayoutKind::Record => s.append("kind: 'struct', fields: "),
        LayoutKind::TaggedUnion => s.append("kind: 'enum', field: 'enum', values: "),
    }
    s.append("[");
    let mut i: usize = 0;
    while i < l.fields.len()
        invariant
            i <= l.fields.len(),
            s@ == "\n\t[\n\t\t"@ + l.name@ + ",\n\t\t{\n\t\t\t"@ + kind_marker_text(l.kind)
                + "["@ + fields_entries_text(fields_view(l.fields@).take(i as int)),
        decreases l.fields.len() - i,
    {
        s.append(render_field_entry(&l.fields[i]).as_str());
        proof {
            let fv = fields_view(l.fields@);
            assert(fv.take(i + 1 as int).drop_last() =~= fv.take(i as int));
            assert(fv.take(i + 1 as int).last() == fv[i as int]);
        }
        i = i + 1;
    }
    proof {
        assert(fields_view(l.fields@).take(l.fields@.len() as int) =~= fields_view(l.fields@));
    }
    s.append("\n\t\t\t],\n\t\t},\n\t],");
    proof {
        assert(s@ =~= schema_entry_text(l@));
    }
    s
}

/// Renders the class declaration of one layout, routed through the base
/// matching its kind.
pub fn render_class(l: &Layout) -> (r: String)
    ensures
        r@ == class_text(l@),
{
    let mut s = String::from_str("export class ");
    s.append(l.name.as_str());
    s.append(" extends ");
    match l.kind {
        LayoutKind::Record => s.append("Struct"),
        LayoutKind::TaggedUnion => s.append("Enum"),
    }
    s.append(" {\n");
    let mut i: usize = 0;
    while i < l.fields.len()
        invariant
            i <= l.fields.len(),
            s@ == "export class "@ + l.name@ + " extends "@ + base_name_text(l.kind) + " {\n"@
                + class_fields_text(fields_view(l.fields@).take(i as int)),
        decreases l.fields.len() - i,
    {
        s.append("\t");
        s.append(l.fields[i].name.as_str());
        s.append(": any;\n");
        proof {
            let fv = fields_view(l.fields@);
            assert(fv.take(i + 1 as int).drop_last() =~= fv.take(i as int));
            assert(fv.take(i + 1 as int).last() == fv[i as int]);
            assert(class_fields_text(fv.take(i as int)) + class_field_text(fv[i as int])
                =~= class_fields_text(fv.take(i + 1 as int)));
        }
        i = i + 1;
    }
    proof {
        assert(fields_view(l.fields@).take(l.fields@.len() as int) =~= fields_view(l.fields@));
    }
    s.append("\tconstructor(properties: any) {\n\t\tsuper(properties);\n\t}\n}\n\n");
    proof {
        assert(s@ =~= class_text(l@));
    }
    s
}

/// Concatenates the fixed preamble, every class declaration in layout
/// order, and the single schema table into the full generated file text.
/// The result is a function of the layouts alone, so generation is
/// deterministic and safely re-runnable.
pub fn generate_output(layouts: &Vec<Layout>) -> (r: String)
    ensures
        r@ == output_text(layouts_view(layouts@)),
{
    let lv = Ghost(layouts_view(layouts@));
    let mut classes = String::new();
    let mut i: usize = 0;
    while i < layouts.len()
        invariant
            i <= layouts.len(),
            lv@ == layouts_view(layouts@),
            classes@ == classes_text(lv@.take(i as int)),
        decreases layouts.len() - i,
    {
        classes.append(render_class(&layouts[i]).as_str());
        proof {
            assert(lv@.take(i + 1 as int).drop_last() =~= lv@.take(i as int));
            assert(lv@.take(i + 1 as int).last() == lv@[i as int]);
        }
        i = i + 1;
    }
    let mut entries = String::new();
    let mut j: usize = 0;
    while j < layouts.len()
        invariant
            j <= layouts.len(),
            lv@ == layouts_view(layouts@),
            entries@ == entries_text(lv@.take(j as int)),
        decreases layouts.len() - j,
    {
        entries.append(render_schema_entry(&layouts[j]).as_str());
        proof {
            assert(lv@.take(j + 1 as int).drop_last() =~= lv@.take(j as int));
            assert(lv@.take(j + 1 as int).last() == lv@[j as int]);
        }
        j = j + 1;
    }
    proof {
        assert(lv@.take(layouts@.len() as int) =~= lv@);
    }
    let mut out = String::from_str(preamble());
    out.append(classes.as_str());
    out.append("export const SCHEMA = new Map<any, any>([");
    out.append(entries.as_str());
    out.append("\n]);");
    proof {
        assert(out@ =~= output_text(lv@));
    }
    out
}

/// Field order is preserved verbatim in the schema table: the entry lines
/// of a field list split exactly at any point, so the line of an earlier
/// field stands in full before the line of every later one.
pub proof fn lemma_fields_entries_order(fs: Seq<FieldV>, i: int)
    requires
        0 <= i <= fs.len(),
    ensures
        fields_entries_text(fs) == fields_entries_text(fs.take(i)) + fields_entries_text(
            fs.skip(i),
        ),
    decreases fs.len() - i,
{
    if i == fs.len() {
        assert(fs.take(i) =~= fs);
        assert(fs.skip(i) =~= Seq::<FieldV>::empty());
        assert(fields_entries_text(fs) =~= fields_entries_text(fs) + fields_entries_text(
            fs.skip(i),
        ));
    } else {
        lemma_fields_entries_order(fs.drop_last(), i);
        assert(fs.drop_last().take(i) =~= fs.take(i));
        assert(fs.skip(i).drop_last() =~= fs.drop_last().skip(i));
        assert(fs.skip(i).len() > 0);
        assert(fs.skip(i).last() == fs.last());
        assert(fields_entries_text(fs.take(i)) + fields_entries_text(fs.skip(i))
            =~= fields_entries_text(fs));
    }
}

/// Field order is preserved verbatim in a generated class: the member
/// declarations of a field list split exactly at any point.
pub proof fn lemma_class_fields_order(fs: Seq<FieldV>, i: int)
    requires
        0 <= i <= fs.len(),
    ensures
        class_fields_text(fs) == class_fields_text(fs.take(i)) + class_fields_text(fs.skip(i)),
    decreases fs.len() - i,
{
    if i == fs.len() {
        assert(fs.take(i) =~= fs);
        assert(fs.skip(i) =~= Seq::<FieldV>::empty());
        assert(class_fields_text(fs) =~= class_fields_text(fs) + class_fields_text(fs.skip(i)));
    } else {
        lemma_class_fields_order(fs.drop_last(), i);
        assert(fs.drop_last().take(i) =~= fs.take(i));
        assert(fs.skip(i).drop_last() =~= fs.drop_last().skip(i));
        assert(fs.skip(i).last() == fs.last());
        assert(class_fields_text(fs.take(i)) + class_fields_text(fs.skip(i))
            =~= class_fields_text(fs));
    }
}

/// A fixed-size array never renders like a variable-length sequence of the
/// same element: the fixed form always carries its literal length, so the
/// two encodings differ for every element type and every length.
pub proof fn lemma_fixed_array_distinct(elem: TypeD, len: nat)
    ensures
        type_schema_text(TypeD::FixedArr { elem: Box::new(elem), len })
            != type_schema_text(TypeD::Sequence { elem: Box::new(elem) }),
{
    reveal_strlit("[");
    reveal_strlit(", ");
    reveal_strlit("]");
    lemma_dec_of_nonempty(len);
    let fixed = type_schema_text(TypeD::FixedArr { elem: Box::new(elem), len });
    let dynamic = type_schema_text(TypeD::Sequence { elem: Box::new(elem) });
    assert(fixed.len() == dynamic.len() + 2 + dec_of(len).len());
}

/// Generation is deterministic end to end: layout construction and
/// rendering are both functions of the schema container and the requested
/// roots alone, so two runs over the same input resolve the same layouts
/// and produce byte-identical output, with no accumulation across runs.
pub proof fn lemma_generation_deterministic(
    cv: Seq<LayoutV>,
    roots: Seq<Seq<char>>,
    a: Seq<LayoutV>,
    b: Seq<LayoutV>,
)
    requires
        crate::resolve::spec_build(cv, roots) == Ok::<Seq<LayoutV>, crate::model::SchemaErrorV>(a),
        crate::resolve::spec_build(cv, roots) == Ok::<Seq<LayoutV>, crate::model::SchemaErrorV>(b),
    ensures
        a == b,
        output_text(a) == output_text(b),
{
}

} // verus!
