//! What can be asked of the books.

pub mod allocation_service;
pub mod import_service;
pub mod portfolio_service;
pub mod reporting_service;
pub mod stock_service;
pub mod transaction_service;

pub use allocation_service::AllocationService;
pub use import_service::ImportService;
pub use portfolio_service::PortfolioService;
pub use reporting_service::ReportingService;
pub use stock_service::StockService;
pub use transaction_service::TransactionService;
