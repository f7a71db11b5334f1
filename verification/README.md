# vdbe

The instructions of a virtual database engine, in the style of SQLite's, and the operations on values
that those instructions carry out. The library is written in Verus: what each operation returns is
stated in its contract and proved.

Values (`value`) are NULL, 64-bit integers, real numbers, texts and blobs.

| module | holds |
| --- | --- |
| `arith` | addition, subtraction, multiplication, division, remainder |
| `bitwise` | bitwise AND, OR, NOT and the two shifts |
| `logic` | three-valued AND, OR, NOT |
| `concat` | joining values as text |
| `flags` | the flags of comparison and index instructions |
| `insn` | the instructions, and the function that carries each of them out |
| `laws`, `readback` | what holds across operations |
| `numeric_text`, `render` | reading a text as a number, writing a number as text |
| `binary64`, `rounding`, `real_arith` | IEEE 754 binary64 numbers: bits, rounding, arithmetic |
| `decimal`, `shortest`, `bignat`, `numeral`, `power` | decimal conversion, exact in both directions |

Real numbers are held as bit patterns and computed with integers, so that rounding is part of what is
proved: a sum, difference, product or quotient is the number nearest to the exact result, with ties
to even. A number is written with the fewest digits that read back as the same number.

A blob takes part in few operations. The `requires` of an operation says which.
