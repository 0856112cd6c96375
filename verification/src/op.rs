pub mod coalesce;
pub mod concat;
pub mod gcd;
pub mod max;
pub mod prod;
pub mod min;
pub mod overwrite;
pub mod sum;
pub mod xor;

pub use self::coalesce::Coalesce;
pub use self::concat::Concat;
pub use self::gcd::Gcd;
pub use self::max::Max;
pub use self::min::Min;
pub use self::prod::Prod;
pub use self::overwrite::Overwrite;
pub use self::sum::Sum;
pub use self::xor::Xor;
