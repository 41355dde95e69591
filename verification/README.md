# gibtax

Reads InteractiveBrokers statements (German language setting, EUR base
currency) and collects what German tax forms ask for: interest, dividends,
withholding tax per jurisdiction, and gains from sales of shares, ETFs and
foreign currency by first in, first out.

## Layout

- `src/` – the verified library (Verus): reading CSV bytes into records
  (with the `csv` crate) and grouping them into tables,
  reading of the statement's tables, statement dates, exchange rate tables,
  instrument data, identifiers in descriptions, the FIFO lists, the ordering
  of a statement's events, dividends and withholding tax per instrument
  kind and jurisdiction, and the facts of the ETF advance lump sum. Amounts
  are generic (`N`), so the library holds no floating point.
- `app/` – the command line program: reading files, settings, the arithmetic on
  amounts, and the reports.
- `tests/` – tests of the library on concrete statements.
